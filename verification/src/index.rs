//! Maps keyed by text.
//!
//! The hashing is done by an `FxHashMap` from a key to a slot number. [`TextMap`] adds the
//! values, held in slots, and a view as a mathematical map.

use rustc_hash::{FxBuildHasher, FxHashMap};
use vstd::prelude::*;

verus! {

/// The hasher factory of `rustc_hash`, carried through without looking inside.
#[verifier::external_type_specification]
#[verifier::external_body]
pub struct ExFxBuildHasher(FxBuildHasher);

/// What an `FxHashMap` from text to slot numbers holds.
pub uninterp spec fn slot_entries(map: FxHashMap<String, usize>) -> Map<Seq<char>, usize>;

/// `FxHashMap::default`: the new map holds nothing.
#[verifier::external_body]
fn no_slots() -> (slots: FxHashMap<String, usize>)
    ensures
        slot_entries(slots).dom() == Set::<Seq<char>>::empty(),
{
    FxHashMap::default()
}

/// `FxHashMap::get`: the slot stored under `key`, `None` exactly if the key is absent.
/// Keys are the same when their characters are.
#[verifier::external_body]
fn slot_of(slots: &FxHashMap<String, usize>, key: &str) -> (slot: Option<usize>)
    ensures
        slot == (if slot_entries(*slots).contains_key(key@) {
            Some(slot_entries(*slots)[key@])
        } else {
            None
        }),
{
    slots.get(key).copied()
}

/// `FxHashMap::insert`: stores `slot` under `key`, in place of what was there, and leaves the
/// other keys alone.
#[verifier::external_body]
fn store_slot(slots: &mut FxHashMap<String, usize>, key: String, slot: usize)
    ensures
        slot_entries(*final(slots)) == slot_entries(*old(slots)).insert(key@, slot),
{
    slots.insert(key, slot);
}

/// A map from text to values.
pub struct TextMap<V> {
    slots: FxHashMap<String, usize>,
    values: Vec<V>,
}

impl<V> TextMap<V> {
    /// Every key points at a slot that exists, and no two keys share one.
    #[verifier::type_invariant]
    spec fn wf(self) -> bool {
        let slots = slot_entries(self.slots);
        &&& forall|k: Seq<char>| #[trigger]
            slots.contains_key(k) ==> 0 <= slots[k] < self.values@.len()
        &&& forall|j: Seq<char>, k: Seq<char>|
            #![trigger slots[j], slots[k]]
            slots.contains_key(j) && slots.contains_key(k) && slots[j] == slots[k] ==> j == k
    }
}

impl<V> View for TextMap<V> {
    type V = Map<Seq<char>, V>;

    closed spec fn view(&self) -> Map<Seq<char>, V> {
        slot_entries(self.slots).map_values(|slot: usize| self.values@[slot as int])
    }
}

impl<V> TextMap<V> {
    /// A map without entries.
    pub fn new() -> (map: Self)
        ensures
            map@ == Map::<Seq<char>, V>::empty(),
    {
        let map = TextMap { slots: no_slots(), values: Vec::new() };
        assert(map@ =~= Map::<Seq<char>, V>::empty());
        map
    }

    /// The value stored under `key`.
    pub fn get(&self, key: &str) -> (value: Option<&V>)
        ensures
            value == (if self@.contains_key(key@) {
                Some(&self@[key@])
            } else {
                None
            }),
    {
        proof {
            use_type_invariant(self);
        }
        match slot_of(&self.slots, key) {
            Some(slot) => Some(&self.values[slot]),
            None => None,
        }
    }

    /// Whether something is stored under `key`.
    pub fn contains(&self, key: &str) -> (r: bool)
        ensures
            r == self@.contains_key(key@),
    {
        slot_of(&self.slots, key).is_some()
    }

    /// Stores `value` under `key`, in place of what was there.
    pub fn insert(&mut self, key: String, value: V)
        ensures
            final(self)@ == old(self)@.insert(key@, value),
    {
        proof {
            use_type_invariant(&*self);
        }
        let mut slots = no_slots();
        let mut values: Vec<V> = Vec::new();
        std::mem::swap(&mut self.slots, &mut slots);
        std::mem::swap(&mut self.values, &mut values);
        let slot: usize = values.len();
        let ghost key_view = key@;
        values.push(value);
        store_slot(&mut slots, key, slot);
        *self = TextMap { slots, values };
        assert(self@ =~= old(self)@.insert(key_view, value)) by {
            assert forall|k: Seq<char>| old(self)@.contains_key(k) && k != key_view implies self@[k]
                == old(self)@[k] by {
                assert(slot_entries(old(self).slots).contains_key(k));
            }
        }
    }
}

impl<T> TextMap<Vec<T>> {
    /// Adds `item` at the end of the list under `key`, starting one if there is none.
    pub fn add(&mut self, key: String, item: T)
        ensures
            final(self)@.dom() == old(self)@.dom().insert(key@),
            final(self)@[key@]@ == (if old(self)@.contains_key(key@) {
                old(self)@[key@]@
            } else {
                Seq::empty()
            }).push(item),
            forall|k: Seq<char>|
                k != key@ && old(self)@.contains_key(k) ==> #[trigger] final(self)@[k]
                    == old(self)@[k],
    {
        proof {
            use_type_invariant(&*self);
        }
        match slot_of(&self.slots, key.as_str()) {
            Some(slot) => {
                let mut values: Vec<Vec<T>> = Vec::new();
                let mut slots = no_slots();
                std::mem::swap(&mut self.slots, &mut slots);
                std::mem::swap(&mut self.values, &mut values);
                values[slot].push(item);
                *self = TextMap { slots, values };
                assert(self@.dom() =~= old(self)@.dom().insert(key@));
            },
            None => {
                let mut list: Vec<T> = Vec::new();
                list.push(item);
                self.insert(key, list);
            },
        }
    }
}

} // verus!
