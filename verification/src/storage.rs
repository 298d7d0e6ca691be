//! A map from paras to values.
use sp_std::collections::btree_map::BTreeMap;
use vstd::prelude::*;

use crate::primitives::ParaId;

verus! {

/// What the router has stored for each para.
pub struct ParaMap<V> {
    entries: BTreeMap<u32, V>,
}

impl<V> View for ParaMap<V> {
    type V = Map<ParaId, V>;

    closed spec fn view(&self) -> Map<ParaId, V> {
        Map::new(
            |para: ParaId| self.entries@.contains_key(para.0),
            |para: ParaId| self.entries@[para.0],
        )
    }
}

impl<V> ParaMap<V> {
    /// A map without entries.
    pub fn new() -> (map: Self)
        ensures
            map@ == Map::<ParaId, V>::empty(),
    {
        let map = ParaMap { entries: BTreeMap::new() };
        assert(map@ =~= Map::<ParaId, V>::empty());
        map
    }

    /// The value of a para, if it has one.
    pub fn get(&self, para: ParaId) -> (value: Option<&V>)
        ensures
            match value {
                Some(v) => self@.contains_key(para) && *v == self@[para],
                None => !self@.contains_key(para),
            },
    {
        self.entries.get(&para.0)
    }

    /// Gives a para a value, in place of the one that it had.
    pub fn insert(&mut self, para: ParaId, value: V)
        ensures
            final(self)@ == old(self)@.insert(para, value),
    {
        let _ = self.entries.insert(para.0, value);
        assert(self@ =~= old(self)@.insert(para, value));
    }

    /// Takes the value of a para out of the map.
    pub fn remove(&mut self, para: ParaId) -> (value: Option<V>)
        ensures
            final(self)@ == old(self)@.remove(para),
            match value {
                Some(v) => old(self)@.contains_key(para) && v == old(self)@[para],
                None => !old(self)@.contains_key(para),
            },
    {
        let value = self.entries.remove(&para.0);
        assert(self@ =~= old(self)@.remove(para));
        value
    }
}

} // verus!
