use vstd::prelude::*;

use crate::types::chains::Chains;
use crate::types::errors::PythiaError;
use crate::utils::address::{normalize, spec_normalize};
use crate::utils::keyed::{keys_unique, lemma_push, lemma_remove, lemma_to_map, lemma_update, to_map};
use crate::utils::text::str_eq;

verus! {

/// Gas of a plain transfer plus the gas that a multitransfer spends per transfer.
pub const ETH_TRANSFER_GAS_LIMIT: u128 = 28_900;

/// What a user holds on one chain, and the nonces of the deposits already counted.
pub struct UserBalance {
    pub amount: u128,
    pub nonces: Vec<u128>,
}

/// A user balance as plain values.
pub struct UserBalanceView {
    pub amount: u128,
    pub nonces: Seq<u128>,
}

impl View for UserBalance {
    type V = UserBalanceView;

    open spec fn view(&self) -> UserBalanceView {
        UserBalanceView { amount: self.amount, nonces: self.nonces@ }
    }
}

impl Clone for UserBalance {
    fn clone(&self) -> (res: Self)
        ensures
            res@ == self@,
    {
        let mut nonces: Vec<u128> = Vec::new();
        let mut i: usize = 0;
        while i < self.nonces.len()
            invariant
                i <= self.nonces@.len(),
                nonces@ == self.nonces@.subrange(0, i as int),
            decreases self.nonces@.len() - i,
        {
            nonces.push(self.nonces[i]);
            i = i + 1;
        }
        assert(nonces@ =~= self.nonces@);
        UserBalance { amount: self.amount, nonces }
    }
}

/// The balance that a new user starts with.
pub open spec fn empty_balance() -> UserBalanceView {
    UserBalanceView { amount: 0, nonces: seq![] }
}

/// The table of one chain, pair by pair, as plain values.
pub open spec fn user_pairs(s: Seq<(String, UserBalance)>) -> Seq<(Seq<char>, UserBalanceView)> {
    s.map_values(|p: (String, UserBalance)| (p.0@, p.1@))
}

/// The table of all chains, each chain's table as a map.
pub open spec fn chain_user_pairs(s: Seq<(u64, Vec<(String, UserBalance)>)>) -> Seq<(u64, Map<Seq<char>, UserBalanceView>)> {
    s.map_values(|p: (u64, Vec<(String, UserBalance)>)| (p.0, to_map(user_pairs(p.1@))))
}

/// Chain id => user's address => balance.
pub struct Balances(pub Vec<(u64, Vec<(String, UserBalance)>)>);

/// The position of `address` in the table of one chain.
fn find_user(table: &Vec<(String, UserBalance)>, address: &str) -> (res: Option<usize>)
    requires
        keys_unique(user_pairs(table@)),
    ensures
        match res {
            Some(j) => j < table@.len() && table@[j as int].0@ == address@
                && to_map(user_pairs(table@)).contains_key(address@)
                && to_map(user_pairs(table@))[address@] == table@[j as int].1@,
            None => !to_map(user_pairs(table@)).contains_key(address@),
        },
{
    let mut j: usize = 0;
    while j < table.len()
        invariant
            keys_unique(user_pairs(table@)),
            j <= table@.len(),
            forall|k: int| 0 <= k < j ==> (#[trigger] table@[k]).0@ != address@,
        decreases table@.len() - j,
    {
        if str_eq(table[j].0.as_str(), address) {
            proof {
                lemma_to_map(user_pairs(table@));
                assert(user_pairs(table@)[j as int] == (address@, table@[j as int].1@));
                assert(to_map(user_pairs(table@)).contains_key(user_pairs(table@)[j as int].0));
            }
            return Some(j);
        }
        j = j + 1;
    }
    proof {
        lemma_to_map(user_pairs(table@));
        if to_map(user_pairs(table@)).contains_key(address@) {
            let k = choose|k: int| 0 <= k < user_pairs(table@).len() && user_pairs(table@)[k].0 == address@;
            assert(table@[k].0@ == address@);
        }
    }
    None
}

/// Whether `x` occurs in `v`.
pub fn contains_u128(v: &Vec<u128>, x: u128) -> (res: bool)
    ensures
        res == v@.contains(x),
{
    let mut k: usize = 0;
    while k < v.len()
        invariant
            k <= v@.len(),
            forall|m: int| 0 <= m < k ==> v@[m] != x,
        decreases v@.len() - k,
    {
        if v[k] == x {
            assert(v@[k as int] == x);
            return true;
        }
        k = k + 1;
    }
    false
}

impl Balances {
    /// Each chain id occurs once, and within a chain each address occurs once.
    pub open spec fn wf(&self) -> bool {
        &&& keys_unique(chain_user_pairs(self.0@))
        &&& forall|i: int| 0 <= i < self.0@.len() ==> keys_unique(user_pairs((#[trigger] self.0@[i]).1@))
    }

    pub open spec fn view(&self) -> Map<u64, Map<Seq<char>, UserBalanceView>> {
        to_map(chain_user_pairs(self.0@))
    }

    /// The balance of `address` on chain `c`, if both exist.
    pub open spec fn balance_of(&self, c: u64, address: Seq<char>) -> Option<UserBalanceView> {
        if self.view().contains_key(c) && self.view()[c].contains_key(address) {
            Some(self.view()[c][address])
        } else {
            None
        }
    }

    /// An empty table.
    pub fn new() -> (res: Balances)
        ensures
            res.wf(),
            res.view() == Map::<u64, Map<Seq<char>, UserBalanceView>>::empty(),
    {
        let res = Balances(Vec::new());
        assert(chain_user_pairs(res.0@) =~= Seq::<(u64, Map<Seq<char>, UserBalanceView>)>::empty());
        res
    }

    /// The position of chain `id`.
    fn find_chain(&self, id: u64) -> (res: Option<usize>)
        requires
            self.wf(),
        ensures
            match res {
                Some(i) => i < self.0@.len() && self.0@[i as int].0 == id && self.view().contains_key(id)
                    && self.view()[id] == to_map(user_pairs(self.0@[i as int].1@)),
                None => !self.view().contains_key(id),
            },
    {
        let mut i: usize = 0;
        while i < self.0.len()
            invariant
                self.wf(),
                i <= self.0@.len(),
                forall|j: int| 0 <= j < i ==> (#[trigger] self.0@[j]).0 != id,
            decreases self.0@.len() - i,
        {
            if self.0[i].0 == id {
                proof {
                    lemma_to_map(chain_user_pairs(self.0@));
                    assert(chain_user_pairs(self.0@)[i as int].0 == id);
                    assert(to_map(chain_user_pairs(self.0@)).contains_key(chain_user_pairs(self.0@)[i as int].0));
                }
                return Some(i);
            }
            i = i + 1;
        }
        proof {
            lemma_to_map(chain_user_pairs(self.0@));
            if self.view().contains_key(id) {
                let j = choose|j: int| 0 <= j < chain_user_pairs(self.0@).len() && chain_user_pairs(self.0@)[j].0 == id;
                assert(self.0@[j].0 == id);
            }
        }
        None
    }

    /// Looks up chain `id` and then `address` on it.
    fn locate(&self, id: u64, address: &str) -> (res: Result<(usize, Option<usize>), PythiaError>)
        requires
            self.wf(),
        ensures
            !self.view().contains_key(id) ==> res == Err::<(usize, Option<usize>), PythiaError>(PythiaError::ChainDoesNotExist),
            self.view().contains_key(id) ==> (res matches Ok((i, oj)) && i < self.0@.len() && self.0@[i as int].0 == id
                && self.view()[id] == to_map(user_pairs(self.0@[i as int].1@))
                && match oj {
                    Some(j) => j < self.0@[i as int].1@.len() && self.0@[i as int].1@[j as int].0@ == address@
                        && self.view()[id].contains_key(address@)
                        && self.view()[id][address@] == self.0@[i as int].1@[j as int].1@,
                    None => !self.view()[id].contains_key(address@),
                }),
    {
        match self.find_chain(id) {
            Some(i) => {
                assert(keys_unique(user_pairs(self.0@[i as int].1@)));
                let oj = find_user(&self.0[i].1, address);
                Ok((i, oj))
            },
            None => Err(PythiaError::ChainDoesNotExist),
        }
    }

    /// Replaces the balance at position `j` of chain position `i`.
    fn set_user(&mut self, i: usize, j: usize, nb: UserBalance)
        requires
            old(self).wf(),
            i < old(self).0@.len(),
            j < old(self).0@[i as int].1@.len(),
        ensures
            final(self).wf(),
            final(self).view() == old(self).view().insert(old(self).0@[i as int].0,
                old(self).view()[old(self).0@[i as int].0].insert(old(self).0@[i as int].1@[j as int].0@, nb@)),
    {
        let ghost c = self.0@[i as int].0;
        let ghost inner = self.0@[i as int].1@;
        let ghost a = inner[j as int].0@;
        let ghost nbv = nb@;
        proof {
            lemma_to_map(chain_user_pairs(self.0@));
            assert(chain_user_pairs(self.0@)[i as int] == (c, to_map(user_pairs(inner))));
            assert(to_map(chain_user_pairs(self.0@)).contains_key(chain_user_pairs(self.0@)[i as int].0));
            assert(keys_unique(user_pairs(inner)));
            lemma_update(user_pairs(inner), j as int, nbv);
        }
        self.0[i].1[j].1 = nb;
        proof {
            assert(user_pairs(self.0@[i as int].1@) =~= user_pairs(inner).update(j as int, (a, nbv)));
            let newm = to_map(user_pairs(inner)).insert(a, nbv);
            lemma_update(chain_user_pairs(old(self).0@), i as int, newm);
            assert(chain_user_pairs(self.0@) =~= chain_user_pairs(old(self).0@).update(i as int, (c, newm)));
            assert forall|k: int| 0 <= k < self.0@.len() implies keys_unique(user_pairs((#[trigger] self.0@[k]).1@)) by {
                if k != i {
                    assert(self.0@[k] == old(self).0@[k]);
                }
            }
        }
    }

    /// Appends the balance `nb` of `address` to chain position `i`, where `address` is new.
    fn push_user(&mut self, i: usize, address: String, nb: UserBalance)
        requires
            old(self).wf(),
            i < old(self).0@.len(),
            !to_map(user_pairs(old(self).0@[i as int].1@)).contains_key(address@),
        ensures
            final(self).wf(),
            final(self).view() == old(self).view().insert(old(self).0@[i as int].0,
                old(self).view()[old(self).0@[i as int].0].insert(address@, nb@)),
    {
        let ghost c = self.0@[i as int].0;
        let ghost inner = self.0@[i as int].1@;
        let ghost a = address@;
        let ghost nbv = nb@;
        proof {
            lemma_to_map(chain_user_pairs(self.0@));
            assert(chain_user_pairs(self.0@)[i as int] == (c, to_map(user_pairs(inner))));
            assert(to_map(chain_user_pairs(self.0@)).contains_key(chain_user_pairs(self.0@)[i as int].0));
            assert(keys_unique(user_pairs(inner)));
            lemma_push(user_pairs(inner), a, nbv);
        }
        self.0[i].1.push((address, nb));
        proof {
            assert(user_pairs(self.0@[i as int].1@) =~= user_pairs(inner).push((a, nbv)));
            let newm = to_map(user_pairs(inner)).insert(a, nbv);
            lemma_update(chain_user_pairs(old(self).0@), i as int, newm);
            assert(chain_user_pairs(self.0@) =~= chain_user_pairs(old(self).0@).update(i as int, (c, newm)));
            assert forall|k: int| 0 <= k < self.0@.len() implies keys_unique(user_pairs((#[trigger] self.0@[k]).1@)) by {
                if k != i {
                    assert(self.0@[k] == old(self).0@[k]);
                }
            }
        }
    }

    /// Creates an empty balance for the address that `address` denotes, stored under its
    /// canonical text.
    pub fn create(&mut self, chain_id: u64, address: &str) -> (res: Result<(), PythiaError>)
        requires
            old(self).wf(),
        ensures
            final(self).wf(),
            match spec_normalize(address@) {
                None => res == Err::<(), PythiaError>(PythiaError::InvalidAddressFormat) && final(self).view() == old(self).view(),
                Some(a) => if !old(self).view().contains_key(chain_id) {
                    res == Err::<(), PythiaError>(PythiaError::ChainDoesNotExist) && final(self).view() == old(self).view()
                } else if old(self).view()[chain_id].contains_key(a) {
                    res == Err::<(), PythiaError>(PythiaError::BalanceAlreadyExists) && final(self).view() == old(self).view()
                } else {
                    res is Ok && final(self).view() == old(self).view().insert(chain_id,
                        old(self).view()[chain_id].insert(a, empty_balance()))
                },
            },
    {
        let address = normalize(address)?;
        let (i, oj) = self.locate(chain_id, address.as_str())?;
        if oj.is_some() {
            return Err(PythiaError::BalanceAlreadyExists);
        }
        let nb = UserBalance { amount: 0, nonces: Vec::new() };
        assert(nb@ == empty_balance());
        self.push_user(i, address, nb);
        Ok(())
    }

    /// Whether `address` has a balance on chain `chain_id`.
    pub fn is_exists(&self, chain_id: u64, address: &str) -> (res: Result<bool, PythiaError>)
        requires
            self.wf(),
        ensures
            !self.view().contains_key(chain_id) ==> res == Err::<bool, PythiaError>(PythiaError::ChainDoesNotExist),
            self.view().contains_key(chain_id) ==> res == Ok::<bool, PythiaError>(self.view()[chain_id].contains_key(address@)),
    {
        let (_, oj) = self.locate(chain_id, address)?;
        Ok(oj.is_some())
    }

    /// Records the nonce of a deposit; a nonce is counted only once.
    pub fn save_nonce(&mut self, chain_id: u64, address: &str, nonce: u128) -> (res: Result<(), PythiaError>)
        requires
            old(self).wf(),
        ensures
            final(self).wf(),
            match old(self).balance_of(chain_id, address@) {
                None => final(self).view() == old(self).view() && res == Err::<(), PythiaError>(
                    if old(self).view().contains_key(chain_id) { PythiaError::BalanceDoesNotExist } else { PythiaError::ChainDoesNotExist }),
                Some(b) => if b.nonces.contains(nonce) {
                    res == Err::<(), PythiaError>(PythiaError::NonceAlreadyExists) && final(self).view() == old(self).view()
                } else {
                    res is Ok && final(self).balance_of(chain_id, address@) == Some(UserBalanceView { amount: b.amount, nonces: b.nonces.push(nonce) })
                        && final(self).view() == old(self).view().insert(chain_id, old(self).view()[chain_id].insert(address@,
                            UserBalanceView { amount: b.amount, nonces: b.nonces.push(nonce) }))
                },
            },
    {
        let (i, oj) = self.locate(chain_id, address)?;
        let j = match oj {
            Some(j) => j,
            None => { return Err(PythiaError::BalanceDoesNotExist); },
        };
        let mut nb = self.0[i].1[j].1.clone();
        if contains_u128(&nb.nonces, nonce) {
            return Err(PythiaError::NonceAlreadyExists);
        }
        nb.nonces.push(nonce);
        self.set_user(i, j, nb);
        Ok(())
    }

    /// Adds `amount` to the balance of `address` on chain `chain_id`.
    pub fn add_amount(&mut self, chain_id: u64, address: &str, amount: u128) -> (res: Result<(), PythiaError>)
        requires
            old(self).wf(),
            old(self).balance_of(chain_id, address@) matches Some(b) ==> b.amount + amount <= u128::MAX,
        ensures
            final(self).wf(),
            match old(self).balance_of(chain_id, address@) {
                None => final(self).view() == old(self).view() && res == Err::<(), PythiaError>(
                    if old(self).view().contains_key(chain_id) { PythiaError::BalanceDoesNotExist } else { PythiaError::ChainDoesNotExist }),
                Some(b) => res is Ok && final(self).view() == old(self).view().insert(chain_id, old(self).view()[chain_id].insert(address@,
                    UserBalanceView { amount: (b.amount + amount) as u128, nonces: b.nonces })),
            },
    {
        let (i, oj) = self.locate(chain_id, address)?;
        let j = match oj {
            Some(j) => j,
            None => { return Err(PythiaError::BalanceDoesNotExist); },
        };
        let mut nb = self.0[i].1[j].1.clone();
        nb.amount = nb.amount + amount;
        self.set_user(i, j, nb);
        Ok(())
    }

    /// Takes `amount` from the balance of `address` on chain `chain_id`; the balance
    /// must hold at least `amount`.
    pub fn reduce(&mut self, chain_id: u64, address: &str, amount: u128) -> (res: Result<(), PythiaError>)
        requires
            old(self).wf(),
            old(self).balance_of(chain_id, address@) matches Some(b) ==> amount <= b.amount,
        ensures
            final(self).wf(),
            match old(self).balance_of(chain_id, address@) {
                None => final(self).view() == old(self).view() && res == Err::<(), PythiaError>(
                    if old(self).view().contains_key(chain_id) { PythiaError::BalanceDoesNotExist } else { PythiaError::ChainDoesNotExist }),
                Some(b) => res is Ok && final(self).view() == old(self).view().insert(chain_id, old(self).view()[chain_id].insert(address@,
                    UserBalanceView { amount: (b.amount - amount) as u128, nonces: b.nonces })),
            },
    {
        let (i, oj) = self.locate(chain_id, address)?;
        let j = match oj {
            Some(j) => j,
            None => { return Err(PythiaError::BalanceDoesNotExist); },
        };
        let mut nb = self.0[i].1[j].1.clone();
        nb.amount = nb.amount - amount;
        self.set_user(i, j, nb);
        Ok(())
    }

    /// Sets the balance of `address` on chain `chain_id` to zero.
    pub fn clear(&mut self, chain_id: u64, address: &str) -> (res: Result<(), PythiaError>)
        requires
            old(self).wf(),
        ensures
            final(self).wf(),
            match old(self).balance_of(chain_id, address@) {
                None => final(self).view() == old(self).view() && res == Err::<(), PythiaError>(
                    if old(self).view().contains_key(chain_id) { PythiaError::BalanceDoesNotExist } else { PythiaError::ChainDoesNotExist }),
                Some(b) => res is Ok && final(self).view() == old(self).view().insert(chain_id, old(self).view()[chain_id].insert(address@,
                    UserBalanceView { amount: 0, nonces: b.nonces })),
            },
    {
        let (i, oj) = self.locate(chain_id, address)?;
        let j = match oj {
            Some(j) => j,
            None => { return Err(PythiaError::BalanceDoesNotExist); },
        };
        let mut nb = self.0[i].1[j].1.clone();
        nb.amount = 0;
        self.set_user(i, j, nb);
        Ok(())
    }

    /// The amount held by `address` on chain `chain_id`.
    pub fn get(&self, chain_id: u64, address: &str) -> (res: Result<u128, PythiaError>)
        requires
            self.wf(),
        ensures
            match self.balance_of(chain_id, address@) {
                None => res == Err::<u128, PythiaError>(
                    if self.view().contains_key(chain_id) { PythiaError::BalanceDoesNotExist } else { PythiaError::ChainDoesNotExist }),
                Some(b) => res == Ok::<u128, PythiaError>(b.amount),
            },
    {
        let (i, oj) = self.locate(chain_id, address)?;
        match oj {
            Some(j) => Ok(self.0[i].1[j].1.amount),
            None => Err(PythiaError::BalanceDoesNotExist),
        }
    }

    /// Opens an empty table for a new chain.
    pub fn init_new_chain(&mut self, chain_id: u64) -> (res: Result<(), PythiaError>)
        requires
            old(self).wf(),
        ensures
            final(self).wf(),
            old(self).view().contains_key(chain_id) ==> res == Err::<(), PythiaError>(PythiaError::ChainAlreadyExists)
                && final(self).view() == old(self).view(),
            !old(self).view().contains_key(chain_id) ==> res is Ok
                && final(self).view() == old(self).view().insert(chain_id, Map::<Seq<char>, UserBalanceView>::empty()),
    {
        if self.find_chain(chain_id).is_some() {
            return Err(PythiaError::ChainAlreadyExists);
        }
        let table: Vec<(String, UserBalance)> = Vec::new();
        proof {
            assert(user_pairs(table@) =~= Seq::<(Seq<char>, UserBalanceView)>::empty());
            assert(to_map(user_pairs(table@)) =~= Map::<Seq<char>, UserBalanceView>::empty());
            lemma_push(chain_user_pairs(self.0@), chain_id, Map::<Seq<char>, UserBalanceView>::empty());
        }
        self.0.push((chain_id, table));
        proof {
            assert(chain_user_pairs(self.0@) =~= chain_user_pairs(old(self).0@).push((chain_id, Map::<Seq<char>, UserBalanceView>::empty())));
            assert forall|k: int| 0 <= k < self.0@.len() implies keys_unique(user_pairs((#[trigger] self.0@[k]).1@)) by {
                if k < old(self).0@.len() {
                    assert(self.0@[k] == old(self).0@[k]);
                } else {
                    assert(user_pairs(self.0@[k].1@) =~= Seq::<(Seq<char>, UserBalanceView)>::empty());
                }
            }
        }
        Ok(())
    }

    /// Drops the table of chain `chain_id`.
    pub fn remove_chain(&mut self, chain_id: u64) -> (res: Result<(), PythiaError>)
        requires
            old(self).wf(),
        ensures
            final(self).wf(),
            !old(self).view().contains_key(chain_id) ==> res == Err::<(), PythiaError>(PythiaError::ChainDoesNotExist)
                && final(self).view() == old(self).view(),
            old(self).view().contains_key(chain_id) ==> res is Ok && final(self).view() == old(self).view().remove(chain_id),
    {
        match self.find_chain(chain_id) {
            Some(i) => {
                proof { lemma_remove(chain_user_pairs(self.0@), i as int); }
                self.0.remove(i);
                proof {
                    assert(chain_user_pairs(self.0@) =~= chain_user_pairs(old(self).0@).remove(i as int));
                    assert forall|k: int| 0 <= k < self.0@.len() implies keys_unique(user_pairs((#[trigger] self.0@[k]).1@)) by {
                        if k < i { assert(self.0@[k] == old(self).0@[k]); } else { assert(self.0@[k] == old(self).0@[k + 1]); }
                    }
                }
                Ok(())
            },
            None => Err(PythiaError::ChainDoesNotExist),
        }
    }

    /// Whether the balance of `address` on chain `chain_id` reaches the chain's minimum.
    pub fn is_sufficient(&self, chains: &Chains, chain_id: u64, address: &str) -> (res: Result<bool, PythiaError>)
        requires
            self.wf(),
            chains.wf(),
        ensures
            match self.balance_of(chain_id, address@) {
                None => res == Err::<bool, PythiaError>(
                    if self.view().contains_key(chain_id) { PythiaError::BalanceDoesNotExist } else { PythiaError::ChainDoesNotExist }),
                Some(b) => if chains.view().contains_key(chain_id) {
                    res == Ok::<bool, PythiaError>(b.amount >= chains.view()[chain_id].min_balance)
                } else {
                    res == Err::<bool, PythiaError>(PythiaError::ChainDoesNotExist)
                },
            },
    {
        let amount = self.get(chain_id, address)?;
        let min = chains.get_min_balance(chain_id)?;
        Ok(amount >= min)
    }

    /// Empties the balance of `address` on chain `chain_id` for a withdrawal: what is left
    /// after paying the gas of one transfer at `gas_price` is returned, and the balance
    /// drops to zero; a balance below that gas is refused and left as it is.
    pub fn get_value_for_witndraw(&mut self, chain_id: u64, address: &str, gas_price: u128) -> (res: Result<u128, PythiaError>)
        requires
            old(self).wf(),
        ensures
            final(self).wf(),
            match old(self).balance_of(chain_id, address@) {
                None => final(self).view() == old(self).view() && res == Err::<u128, PythiaError>(
                    if old(self).view().contains_key(chain_id) { PythiaError::BalanceDoesNotExist } else { PythiaError::ChainDoesNotExist }),
                Some(b) => if b.amount < ETH_TRANSFER_GAS_LIMIT * gas_price {
                    res == Err::<u128, PythiaError>(PythiaError::NotEnoughFundsForGas) && final(self).view() == old(self).view()
                } else {
                    res == Ok::<u128, PythiaError>((b.amount - ETH_TRANSFER_GAS_LIMIT * gas_price) as u128)
                        && final(self).view() == old(self).view().insert(chain_id, old(self).view()[chain_id].insert(address@,
                            UserBalanceView { amount: 0, nonces: b.nonces }))
                },
            },
    {
        let (i, oj) = self.locate(chain_id, address)?;
        let j = match oj {
            Some(j) => j,
            None => { return Err(PythiaError::BalanceDoesNotExist); },
        };
        let mut nb = self.0[i].1[j].1.clone();
        let gas = match ETH_TRANSFER_GAS_LIMIT.checked_mul(gas_price) {
            Some(g) => g,
            None => { return Err(PythiaError::NotEnoughFundsForGas); },
        };
        if nb.amount < gas {
            return Err(PythiaError::NotEnoughFundsForGas);
        }
        let value = nb.amount - gas;
        nb.amount = 0;
        self.set_user(i, j, nb);
        Ok(value)
    }
}

} // verus!
