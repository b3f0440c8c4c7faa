//! Debt and repay positions, and the byte-keyed registry that holds them.
use crate::keyed::{
    bytes_eq,
    keys_unique,
    lemma_map_of_absent,
    lemma_map_of_index,
    lemma_map_of_push,
    lemma_map_of_remove,
    lemma_map_of_update,
    map_of,
};
use vstd::prelude::*;

verus! {

/// An open (or liquidated) loan.
#[derive(Debug)]
pub struct DebtPosition {
    pub size: u128,
    pub health_factor: u32,
    pub is_liquidated: bool,
    pub timestamp: u64,
    pub collateral_amount: u128,
    pub collateral_identifier: Vec<u8>,
}

pub struct DebtPositionView {
    pub size: u128,
    pub health_factor: u32,
    pub is_liquidated: bool,
    pub timestamp: u64,
    pub collateral_amount: u128,
    pub collateral_identifier: Seq<u8>,
}

impl View for DebtPosition {
    type V = DebtPositionView;

    open spec fn view(&self) -> DebtPositionView {
        DebtPositionView {
            size: self.size,
            health_factor: self.health_factor,
            is_liquidated: self.is_liquidated,
            timestamp: self.timestamp,
            collateral_amount: self.collateral_amount,
            collateral_identifier: self.collateral_identifier@,
        }
    }
}

/// A staged intent to pay back (part of) a loan, made from a borrow receipt.
#[derive(Debug)]
pub struct RepayPosition {
    pub identifier: Vec<u8>,
    pub amount: u128,
    pub nonce: u64,
    pub position_id: Vec<u8>,
    pub borrow_timestamp: u64,
    pub collateral_identifier: Vec<u8>,
    pub collateral_amount: u128,
    pub collateral_timestamp: u64,
}

pub struct RepayPositionView {
    pub identifier: Seq<u8>,
    pub amount: u128,
    pub nonce: u64,
    pub position_id: Seq<u8>,
    pub borrow_timestamp: u64,
    pub collateral_identifier: Seq<u8>,
    pub collateral_amount: u128,
    pub collateral_timestamp: u64,
}

impl View for RepayPosition {
    type V = RepayPositionView;

    open spec fn view(&self) -> RepayPositionView {
        RepayPositionView {
            identifier: self.identifier@,
            amount: self.amount,
            nonce: self.nonce,
            position_id: self.position_id@,
            borrow_timestamp: self.borrow_timestamp,
            collateral_identifier: self.collateral_identifier@,
            collateral_amount: self.collateral_amount,
            collateral_timestamp: self.collateral_timestamp,
        }
    }
}

pub struct Entry<V> {
    pub id: Vec<u8>,
    pub value: V,
}

/// Values keyed by byte-string identifiers, each identifier present at most once.
pub struct Registry<V> {
    entries: Vec<Entry<V>>,
}

impl<V: View> Registry<V> {
    pub closed spec fn pairs(&self) -> Seq<(Seq<u8>, V::V)> {
        self.entries@.map_values(|e: Entry<V>| (e.id@, e.value@))
    }

    pub closed spec fn len(&self) -> nat {
        self.entries@.len()
    }

    /// The identifier stored at index `i`.
    pub closed spec fn key_at(&self, i: int) -> Seq<u8> {
        self.entries@[i].id@
    }

    pub open spec fn wf(&self) -> bool {
        keys_unique(self.pairs())
    }

    /// The registry as a map from identifier to value.
    pub open spec fn map(&self) -> Map<Seq<u8>, V::V> {
        map_of(self.pairs())
    }

    pub fn new() -> (r: Registry<V>)
        ensures
            r.wf(),
            r.map() == Map::<Seq<u8>, V::V>::empty(),
    {
        let r = Registry { entries: Vec::new() };
        assert(r.pairs() =~= Seq::empty());
        assert(r.map() =~= Map::<Seq<u8>, V::V>::empty());
        r
    }

    /// Index of `id`, if present.
    pub fn find(&self, id: &[u8]) -> (r: Option<usize>)
        requires
            self.wf(),
        ensures
            match r {
                Some(i) => i < self.len() && self.key_at(i as int) == id@
                    && self.map().contains_key(id@),
                None => !self.map().contains_key(id@),
            },
    {
        let mut i: usize = 0;
        while i < self.entries.len()
            invariant
                i <= self.entries@.len(),
                self.wf(),
                forall|j: int| 0 <= j < i ==> #[trigger] self.pairs()[j].0 != id@,
            decreases self.entries@.len() - i,
        {
            if bytes_eq(self.entries[i].id.as_slice(), id) {
                proof {
                    lemma_map_of_index(self.pairs(), i as int);
                }
                return Some(i);
            }
            i = i + 1;
        }
        proof {
            lemma_map_of_absent(self.pairs(), id@);
        }
        None
    }

    /// The value stored at index `i`.
    pub fn get(&self, i: usize) -> (r: &V)
        requires
            self.wf(),
            i < self.len(),
        ensures
            self.map().contains_key(self.key_at(i as int)),
            r@ == self.map()[self.key_at(i as int)],
    {
        proof {
            lemma_map_of_index(self.pairs(), i as int);
        }
        &self.entries[i].value
    }

    /// Adds `value` under the fresh identifier `id`.
    pub fn insert_new(&mut self, id: Vec<u8>, value: V)
        requires
            old(self).wf(),
            !old(self).map().contains_key(id@),
        ensures
            final(self).wf(),
            final(self).map() == old(self).map().insert(id@, value@),
    {
        let ghost s = self.pairs();
        let ghost k = id@;
        let ghost v = value@;
        self.entries.push(Entry { id, value });
        proof {
            lemma_map_of_push(s, k, v);
            assert(self.pairs() =~= s.push((k, v)));
        }
    }

    /// Removes the entry at index `i`.
    pub fn remove_at(&mut self, i: usize)
        requires
            old(self).wf(),
            i < old(self).len(),
        ensures
            final(self).wf(),
            final(self).map() == old(self).map().remove(old(self).key_at(i as int)),
    {
        let ghost s = self.pairs();
        self.entries.remove(i);
        proof {
            lemma_map_of_remove(s, i as int);
            assert(self.pairs() =~= s.remove(i as int));
        }
    }
}

impl Registry<DebtPosition> {
    /// Flags the position at index `i` as liquidated.
    pub fn set_liquidated(&mut self, i: usize)
        requires
            old(self).wf(),
            i < old(self).len(),
        ensures
            final(self).wf(),
            final(self).map() == old(self).map().insert(
                old(self).key_at(i as int),
                DebtPositionView {
                    is_liquidated: true,
                    ..old(self).map()[old(self).key_at(i as int)]
                },
            ),
    {
        let ghost s = self.pairs();
        proof {
            lemma_map_of_index(s, i as int);
        }
        self.entries[i].value.is_liquidated = true;
        proof {
            let nv = self.entries@[i as int].value@;
            lemma_map_of_update(s, i as int, nv);
            assert(self.pairs() =~= s.update(i as int, (s[i as int].0, nv)));
        }
    }
}

impl Registry<RepayPosition> {
    /// Sets the outstanding amount of the position at index `i`.
    pub fn set_amount(&mut self, i: usize, amount: u128)
        requires
            old(self).wf(),
            i < old(self).len(),
        ensures
            final(self).wf(),
            final(self).map() == old(self).map().insert(
                old(self).key_at(i as int),
                RepayPositionView { amount, ..old(self).map()[old(self).key_at(i as int)] },
            ),
    {
        let ghost s = self.pairs();
        proof {
            lemma_map_of_index(s, i as int);
        }
        self.entries[i].value.amount = amount;
        proof {
            let nv = self.entries@[i as int].value@;
            lemma_map_of_update(s, i as int, nv);
            assert(self.pairs() =~= s.update(i as int, (s[i as int].0, nv)));
        }
    }
}

} // verus!
