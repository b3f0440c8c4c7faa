//! Per-asset reserve balances.
use crate::keyed::{
    bytes_eq,
    keys_unique,
    lemma_map_of_absent,
    lemma_map_of_index,
    lemma_map_of_push,
    lemma_map_of_update,
    map_of,
};
use vstd::prelude::*;

verus! {

pub struct ReserveEntry {
    pub asset: Vec<u8>,
    pub balance: u128,
}

/// Balances of the assets a pool holds; an asset never seen has balance zero.
pub struct ReserveLedger {
    entries: Vec<ReserveEntry>,
}

impl ReserveLedger {
    pub closed spec fn pairs(&self) -> Seq<(Seq<u8>, u128)> {
        self.entries@.map_values(|e: ReserveEntry| (e.asset@, e.balance))
    }

    /// Each asset is listed once.
    pub open spec fn wf(&self) -> bool {
        keys_unique(self.pairs())
    }

    /// The balances of the assets listed so far.
    pub open spec fn balances(&self) -> Map<Seq<u8>, u128> {
        map_of(self.pairs())
    }

    /// Balance of `asset`, zero if it was never credited.
    pub open spec fn balance_of(&self, asset: Seq<u8>) -> u128 {
        if self.balances().contains_key(asset) {
            self.balances()[asset]
        } else {
            0
        }
    }

    pub fn new() -> (r: ReserveLedger)
        ensures
            r.wf(),
            forall|a: Seq<u8>| r.balance_of(a) == 0,
    {
        let r = ReserveLedger { entries: Vec::new() };
        assert(r.pairs() =~= Seq::empty());
        r
    }

    fn find(&self, asset: &[u8]) -> (r: Option<usize>)
        requires
            self.wf(),
        ensures
            match r {
                Some(i) => i < self.pairs().len() && self.pairs()[i as int].0 == asset@
                    && self.balance_of(asset@) == self.pairs()[i as int].1,
                None => !self.balances().contains_key(asset@) && self.balance_of(asset@) == 0,
            },
    {
        let mut i: usize = 0;
        while i < self.entries.len()
            invariant
                i <= self.entries@.len(),
                self.wf(),
                forall|j: int| 0 <= j < i ==> #[trigger] self.pairs()[j].0 != asset@,
            decreases self.entries@.len() - i,
        {
            if bytes_eq(self.entries[i].asset.as_slice(), asset) {
                proof {
                    lemma_map_of_index(self.pairs(), i as int);
                }
                return Some(i);
            }
            i = i + 1;
        }
        proof {
            lemma_map_of_absent(self.pairs(), asset@);
        }
        None
    }

    /// Balance of `asset`.
    pub fn balance(&self, asset: &[u8]) -> (r: u128)
        requires
            self.wf(),
        ensures
            r == self.balance_of(asset@),
    {
        match self.find(asset) {
            Some(i) => self.entries[i].balance,
            None => 0,
        }
    }

    /// Adds `amount` to the balance of `asset`.
    pub fn credit(&mut self, asset: &[u8], amount: u128)
        requires
            old(self).wf(),
            old(self).balance_of(asset@) + amount <= u128::MAX,
        ensures
            final(self).wf(),
            final(self).balances() == old(self).balances().insert(
                asset@,
                (old(self).balance_of(asset@) + amount) as u128,
            ),
    {
        match self.find(asset) {
            Some(i) => {
                let ghost s = self.pairs();
                let b = self.entries[i].balance;
                self.entries[i].balance = b + amount;
                proof {
                    lemma_map_of_update(s, i as int, (b + amount) as u128);
                    assert(self.pairs() =~= s.update(i as int, (s[i as int].0, (b + amount) as u128)));
                }
            },
            None => {
                let ghost s = self.pairs();
                let mut key: Vec<u8> = Vec::new();
                let mut j: usize = 0;
                while j < asset.len()
                    invariant
                        j <= asset@.len(),
                        key@ == asset@.subrange(0, j as int),
                    decreases asset@.len() - j,
                {
                    key.push(asset[j]);
                    j = j + 1;
                    assert(key@ =~= asset@.subrange(0, j as int));
                }
                assert(asset@.subrange(0, asset@.len() as int) =~= asset@);
                self.entries.push(ReserveEntry { asset: key, balance: amount });
                proof {
                    lemma_map_of_push(s, asset@, amount);
                    assert(self.pairs() =~= s.push((asset@, amount)));
                }
            },
        }
    }

    /// Takes `amount` from the balance of `asset`; refuses, changing nothing, when the
    /// balance is smaller.
    pub fn debit(&mut self, asset: &[u8], amount: u128) -> (ok: bool)
        requires
            old(self).wf(),
        ensures
            final(self).wf(),
            ok == (amount <= old(self).balance_of(asset@)),
            ok ==> final(self).balances() == old(self).balances().insert(
                asset@,
                (old(self).balance_of(asset@) - amount) as u128,
            ),
            !ok ==> *final(self) == *old(self),
    {
        match self.find(asset) {
            Some(i) => {
                let b = self.entries[i].balance;
                if amount > b {
                    return false;
                }
                let ghost s = self.pairs();
                self.entries[i].balance = b - amount;
                proof {
                    lemma_map_of_update(s, i as int, (b - amount) as u128);
                    assert(self.pairs() =~= s.update(i as int, (s[i as int].0, (b - amount) as u128)));
                }
                true
            },
            None => {
                if amount > 0 {
                    return false;
                }
                self.credit(asset, 0);
                true
            },
        }
    }
}

} // verus!
