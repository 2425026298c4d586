//! A map from pairs of numbers: layer and expert.

use std::collections::HashMap;
use vstd::prelude::*;

verus! {

broadcast use vstd::std_specs::hash::group_hash_axioms;

/// A map from layer and expert.
pub struct PairMap<T> {
    entries: HashMap<u64, T>,
}

/// The single key of a pair.
pub open spec fn key_of(pair: (u32, u32)) -> u64 {
    (pair.0 * 0x1_0000_0000 + pair.1) as u64
}

impl<T> View for PairMap<T> {
    type V = Map<(u32, u32), T>;

    closed spec fn view(&self) -> Map<(u32, u32), T> {
        Map::new(
            |pair: (u32, u32)| self.entries@.contains_key(key_of(pair)),
            |pair: (u32, u32)| self.entries@[key_of(pair)],
        )
    }
}

proof fn lemma_keys_apart(a: (u32, u32), b: (u32, u32))
    ensures
        key_of(a) == key_of(b) ==> a == b,
{
}

fn pack(layer_id: u32, expert_id: u32) -> (key: u64)
    ensures
        key == key_of((layer_id, expert_id)),
{
    (layer_id as u64) * 0x1_0000_0000 + expert_id as u64
}

impl<T> PairMap<T> {
    /// A map without entries.
    pub fn new() -> (map: Self)
        ensures
            map@ == Map::<(u32, u32), T>::empty(),
    {
        let map = PairMap { entries: HashMap::new() };
        proof {
            assert(map@ =~= Map::<(u32, u32), T>::empty());
        }
        map
    }

    /// Sets the entry of a pair, in place of the one it had.
    pub fn insert(&mut self, layer_id: u32, expert_id: u32, value: T)
        ensures
            final(self)@ == old(self)@.insert((layer_id, expert_id), value),
    {
        let key: u64 = pack(layer_id, expert_id);
        self.entries.insert(key, value);
        proof {
            assert forall|pair: (u32, u32)|
                key_of(pair) == key implies pair == (layer_id, expert_id) by {
                lemma_keys_apart(pair, (layer_id, expert_id));
            }
            assert(self@ =~= old(self)@.insert((layer_id, expert_id), value));
        }
    }

    /// The entry of a pair.
    pub fn get(&self, layer_id: u32, expert_id: u32) -> (value: Option<&T>)
        ensures
            match value {
                Some(entry) => self@.contains_key((layer_id, expert_id)) && *entry == self@[(
                    layer_id,
                    expert_id,
                )],
                None => !self@.contains_key((layer_id, expert_id)),
            },
    {
        self.entries.get(&pack(layer_id, expert_id))
    }

    /// Has the pair an entry?
    pub fn contains(&self, layer_id: u32, expert_id: u32) -> (found: bool)
        ensures
            found == self@.contains_key((layer_id, expert_id)),
    {
        self.entries.contains_key(&pack(layer_id, expert_id))
    }

    /// Number of entries.
    pub fn len(&self) -> (len: usize)
        ensures
            self@.dom().finite(),
            len == self@.dom().len(),
    {
        proof {
            let pairs = self@.dom();
            let keys = self.entries@.dom();
            let unpack = |key: u64| ((key / 0x1_0000_0000) as u32, (key % 0x1_0000_0000) as u32);
            assert forall|key: u64| #[trigger] keys.contains(key) implies pairs.contains(
                unpack(key),
            ) by {
                assert(key_of(unpack(key)) == key);
            }
            assert forall|pair: (u32, u32)| #[trigger] pairs.contains(pair) implies exists|
                key: u64,
            |
                keys.contains(key) && #[trigger] unpack(key) == pair by {
                assert(unpack(key_of(pair)) == pair);
                assert(keys.contains(key_of(pair)));
            }
            assert forall|a: u64, b: u64|
                #[trigger] unpack(a) == #[trigger] unpack(b) implies a == b by {
                assert(key_of(unpack(a)) == a);
                assert(key_of(unpack(b)) == b);
            }
            assert(keys.map(unpack) =~= pairs);
            vstd::set_lib::lemma_map_size(keys, pairs, unpack);
        }
        self.entries.len()
    }
}

/// What was put in under a pair is what is found under it, and nothing changes under
/// any other.
pub proof fn law_pairs_are_found<T>(
    map: &mut PairMap<T>,
    layer_id: u32,
    expert_id: u32,
    value: T,
    other: (u32, u32),
)
    requires
        call_ensures(PairMap::<T>::insert, (map, layer_id, expert_id, value), ()),
        other != (layer_id, expert_id),
    ensures
        final(map)@.contains_key((layer_id, expert_id)),
        final(map)@[(layer_id, expert_id)] == value,
        final(map)@.contains_key(other) == old(map)@.contains_key(other),
        old(map)@.contains_key(other) ==> final(map)@[other] == old(map)@[other],
{
}

} // verus!
