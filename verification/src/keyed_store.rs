//! Values that are found again by a number.

use ahash::{AHashMap, RandomState};
use vstd::prelude::*;

verus! {

/// What `ahash` makes its hashers of.
#[verifier::external_type_specification]
#[verifier::external_body]
pub struct ExRandomState(RandomState);

/// The hash map of `ahash`.
#[verifier::external_type_specification]
#[verifier::external_body]
#[verifier::reject_recursive_types(K)]
#[verifier::reject_recursive_types(V)]
#[verifier::reject_recursive_types(S)]
pub struct ExAHashMap<K, V, S>(AHashMap<K, V, S>);

/// The places that a hash map holds, by number.
pub uninterp spec fn places(map: AHashMap<u128, usize, RandomState>) -> Map<u128, usize>;

/// No places.
pub open spec fn no_places() -> Map<u128, usize> {
    Map::empty()
}

/// An empty hash map.
///
/// `AHashMap::with_capacity`: the map holds nothing.
#[verifier::external_body]
fn places_new(capacity: usize) -> (r: AHashMap<u128, usize, RandomState>)
    requires
        capacity <= 1000,
    ensures
        places(r) == no_places(),
{
    AHashMap::with_capacity(capacity)
}

/// The value of a key.
///
/// `AHashMap::get`: the value that was last put there, `None` if the map does not hold the key.
#[verifier::external_body]
fn places_get(map: &AHashMap<u128, usize, RandomState>, key: u128) -> (r: Option<usize>)
    ensures
        r == if places(*map).contains_key(key) {
            Some(places(*map)[key])
        } else {
            None
        },
{
    map.get(&key).copied()
}

/// Gives a key a value.
///
/// `AHashMap::insert`: the key has the value after the call, the others keep theirs.
#[verifier::external_body]
fn places_insert(map: &mut AHashMap<u128, usize, RandomState>, key: u128, place: usize)
    ensures
        places(*final(map)) == places(*old(map)).insert(key, place),
{
    map.insert(key, place);
}

/// Takes a key out.
///
/// `AHashMap::remove`: the map does not hold the key after the call, the others keep their values.
#[verifier::external_body]
fn places_remove(map: &mut AHashMap<u128, usize, RandomState>, key: u128)
    ensures
        places(*final(map)) == places(*old(map)).remove(key),
{
    map.remove(&key);
}

/// A map from numbers to values: a list of the values, and a hash map that tells where each stands.
pub struct KeyedStore<T> {
    places: AHashMap<u128, usize, RandomState>,
    entries: Vec<(u128, T)>,
}

impl<T> View for KeyedStore<T> {
    type V = Map<u128, T>;

    closed spec fn view(&self) -> Map<u128, T> {
        Map::new(
            |key: u128| places(self.places).contains_key(key),
            |key: u128| self.entries@[places(self.places)[key] as int].1,
        )
    }
}

impl<T> KeyedStore<T> {
    /// Whether the hash map and the list agree.
    pub closed spec fn wf(self) -> bool {
        &&& forall|key: u128| #[trigger]
            places(self.places).contains_key(key) ==> places(self.places)[key] < self.entries@.len()
                && self.entries@[places(self.places)[key] as int].0 == key
        &&& forall|i: int|
            0 <= i < self.entries@.len() ==> places(self.places).contains_key(
                (#[trigger] self.entries@[i]).0,
            ) && places(self.places)[self.entries@[i].0] == i
    }

    /// The keys in the order in which they are walked.
    pub closed spec fn order(self) -> Seq<u128> {
        self.entries@.map_values(|entry: (u128, T)| entry.0)
    }

    /// An empty store, with room for `capacity` keys.
    pub fn with_capacity(capacity: usize) -> (r: KeyedStore<T>)
        requires
            capacity <= 1000,
        ensures
            r.wf(),
            r@ == Map::<u128, T>::empty(),
    {
        let r = KeyedStore { places: places_new(capacity), entries: Vec::new() };
        assert(r@ =~= Map::<u128, T>::empty());
        r
    }

    /// Whether the store holds a key.
    pub fn contains_key(&self, key: u128) -> (r: bool)
        requires
            self.wf(),
        ensures
            r == self@.contains_key(key),
    {
        places_get(&self.places, key).is_some()
    }

    /// The value of a key.
    pub fn get(&self, key: u128) -> (r: Option<&T>)
        requires
            self.wf(),
        ensures
            match r {
                Some(value) => self@.contains_key(key) && *value == self@[key],
                None => !self@.contains_key(key),
            },
    {
        match places_get(&self.places, key) {
            Some(place) => Some(&self.entries[place].1),
            None => None,
        }
    }

    /// The value of a key, for changing it.
    pub fn get_mut(&mut self, key: u128) -> (r: Option<&mut T>)
        requires
            old(self).wf(),
        ensures
            final(self).wf(),
            final(self).order() == old(self).order(),
            match r {
                Some(value) => {
                    &&& old(self)@.contains_key(key)
                    &&& *value == old(self)@[key]
                    &&& final(self)@ == old(self)@.insert(key, *final(value))
                },
                None => !old(self)@.contains_key(key) && final(self)@ == old(self)@,
            },
    {
        match places_get(&self.places, key) {
            Some(place) => Some(&mut self.entries[place].1),
            None => None,
        }
    }

    /// Gives a key a value.
    pub fn insert(&mut self, key: u128, value: T)
        requires
            old(self).wf(),
        ensures
            final(self).wf(),
            final(self)@ == old(self)@.insert(key, value),
    {
        let ghost before = self@;
        match places_get(&self.places, key) {
            Some(place) => {
                self.entries[place].1 = value;
            },
            None => {
                let place = self.entries.len();
                places_insert(&mut self.places, key, place);
                self.entries.push((key, value));
            },
        }
        assert(self@ =~= before.insert(key, value));
    }

    /// Takes a key and its value out.
    pub fn remove(&mut self, key: u128) -> (r: Option<T>)
        requires
            old(self).wf(),
        ensures
            final(self).wf(),
            final(self)@ == old(self)@.remove(key),
            r == if old(self)@.contains_key(key) {
                Some(old(self)@[key])
            } else {
                None
            },
    {
        let ghost before = *self;
        match places_get(&self.places, key) {
            Some(place) => {
                let entry = self.entries.swap_remove(place);
                places_remove(&mut self.places, key);
                if place < self.entries.len() {
                    let moved = self.entries[place].0;
                    proof {
                        assert(self.entries@[place as int] == before.entries@[before.entries@.len() - 1]);
                    }
                    places_insert(&mut self.places, moved, place);
                }
                proof {
                    assert forall|i: int| 0 <= i < self.entries@.len() implies places(
                        self.places,
                    ).contains_key((#[trigger] self.entries@[i]).0) && places(
                        self.places,
                    )[self.entries@[i].0] == i by {
                        if i == place {
                        } else {
                            assert(self.entries@[i] == before.entries@[i]);
                        }
                    }
                    assert(self@ =~= before@.remove(key));
                }
                Some(entry.1)
            },
            None => {
                assert(self@ =~= before@.remove(key));
                None
            },
        }
    }

    /// The number of keys.
    pub fn len(&self) -> (r: usize)
        requires
            self.wf(),
        ensures
            r == self.order().len(),
    {
        self.entries.len()
    }

    /// The key and the value at a place of the walk.
    pub fn entry(&self, index: usize) -> (r: (u128, &T))
        requires
            self.wf(),
            index < self.order().len(),
        ensures
            r.0 == self.order()[index as int],
            self@.contains_key(r.0),
            *r.1 == self@[r.0],
    {
        let entry = &self.entries[index];
        (entry.0, &entry.1)
    }
}

/// A walk meets every key once.
pub proof fn law_walk_is_complete<T>(store: KeyedStore<T>)
    requires
        store.wf(),
    ensures
        store.order().no_duplicates(),
        forall|key: u128| store@.contains_key(key) <==> store.order().contains(key),
{
    assert forall|i: int, j: int|
        0 <= i < store.order().len() && 0 <= j < store.order().len() && i != j implies store.order()[i]
        != store.order()[j] by {
        assert(store.entries@[i].0 == store.order()[i]);
        assert(store.entries@[j].0 == store.order()[j]);
    }
    assert forall|key: u128| store@.contains_key(key) implies store.order().contains(key) by {
        assert(store.order()[places(store.places)[key] as int] == key);
    }
    assert forall|key: u128| store.order().contains(key) implies store@.contains_key(key) by {
        let i = choose|i: int| 0 <= i < store.order().len() && store.order()[i] == key;
        assert(store.entries@[i].0 == key);
    }
}

}
