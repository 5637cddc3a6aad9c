//! A store of values that are known by numbers.

use vstd::prelude::*;

verus! {

/// Values in numbered slots. The number of a value that was taken out is used again.
pub struct Slots<T> {
    slots: Vec<Option<T>>,
}

impl<T> View for Slots<T> {
    type V = Map<usize, T>;

    /// The values by their numbers.
    closed spec fn view(&self) -> Map<usize, T> {
        Map::new(
            |key: usize| key < self.slots@.len() && self.slots@[key as int] is Some,
            |key: usize| self.slots@[key as int]->0,
        )
    }
}

impl<T> Slots<T> {
    /// The number that the next value gets.
    pub closed spec fn next_key(&self) -> nat {
        first_free(self.slots@, 0)
    }

    /// There are no more values than there are numbers for them.
    pub proof fn lemma_finite(&self)
        ensures
            self@.dom().finite(),
            self@.dom().len() <= usize::MAX,
    {
        let bound = vstd::set_lib::set_int_range(0, self.slots@.len() as int);
        let keys = bound.map(|i: int| i as usize);
        vstd::set_lib::lemma_int_range(0, self.slots@.len() as int);
        vstd::set_lib::lemma_map_size_bound(bound, keys, |i: int| i as usize);
        assert forall|key: usize| self@.dom().contains(key) implies keys.contains(key) by {
            assert(bound.contains(key as int) && key as int as usize == key);
        }
        vstd::set_lib::lemma_set_subset_finite(keys, self@.dom());
        vstd::set_lib::lemma_len_subset(self@.dom(), keys);
        assert(self.slots.len() <= usize::MAX);
    }

    /// No values.
    pub fn new() -> (slots: Slots<T>)
        ensures
            slots@ == Map::<usize, T>::empty(),
    {
        let slots = Slots { slots: Vec::new() };
        proof {
            assert(slots@ =~= Map::<usize, T>::empty());
        }
        slots
    }

    /// Stores a value.
    pub fn insert(&mut self, value: T) -> (key: usize)
        ensures
            !old(self)@.dom().contains(key),
            key == old(self).next_key(),
            final(self)@ == old(self)@.insert(key, value),
    {
        let mut key: usize = 0;
        while key < self.slots.len() && self.slots[key].is_some()
            invariant
                *self == *old(self),
                key <= self.slots@.len(),
                forall|k: int| 0 <= k < key ==> (#[trigger] self.slots@[k]) is Some,
                first_free(self.slots@, 0) == first_free(self.slots@, key as nat),
            decreases self.slots@.len() - key,
        {
            key = key + 1;
        }
        if key < self.slots.len() {
            self.slots.set(key, Some(value));
        } else {
            self.slots.push(Some(value));
        }
        proof {
            assert(self@ =~= old(self)@.insert(key, value));
        }
        key
    }

    /// Takes a value out.
    pub fn remove(&mut self, key: usize) -> (value: Option<T>)
        ensures
            value is Some <==> old(self)@.dom().contains(key),
            value matches Some(value) ==> value == old(self)@[key],
            final(self)@ == old(self)@.remove(key),
    {
        if key < self.slots.len() {
            let value = self.slots[key].take();
            proof {
                assert(self@ =~= old(self)@.remove(key));
            }
            value
        } else {
            proof {
                assert(self@ =~= old(self)@.remove(key));
            }
            None
        }
    }

    /// Whether there is a value with this number.
    pub fn contains(&self, key: usize) -> (found: bool)
        ensures
            found == self@.dom().contains(key),
    {
        key < self.slots.len() && self.slots[key].is_some()
    }

    /// Whether there are no values.
    pub fn is_empty(&self) -> (empty: bool)
        ensures
            empty == (self@ == Map::<usize, T>::empty()),
    {
        let mut key: usize = 0;
        while key < self.slots.len()
            invariant
                key <= self.slots@.len(),
                forall|k: usize| k < key ==> !(#[trigger] self@.dom().contains(k)),
            decreases self.slots@.len() - key,
        {
            if self.slots[key].is_some() {
                proof {
                    assert(self@.dom().contains(key));
                    assert(!Map::<usize, T>::empty().dom().contains(key));
                }
                return false;
            }
            key = key + 1;
        }
        proof {
            assert(self@ =~= Map::<usize, T>::empty());
        }
        true
    }

    /// The number of slots, used and free: all numbers are below it.
    pub closed spec fn spec_end(&self) -> nat {
        self.slots@.len()
    }

    /// The number of slots, used and free: all numbers are below it.
    pub fn end(&self) -> (end: usize)
        ensures
            end == self.spec_end(),
            forall|key: usize| #[trigger] self@.dom().contains(key) ==> key < end,
    {
        self.slots.len()
    }

    /// The value with this number.
    pub fn get(&self, key: usize) -> (value: &T)
        requires
            self@.dom().contains(key),
        ensures
            *value == self@[key],
    {
        match &self.slots[key] {
            Some(value) => value,
            None => {
                proof {
                    assert(false);
                }
                vstd::pervasive::unreached()
            },
        }
    }

    /// The value with this number, to be changed.
    pub fn get_mut(&mut self, key: usize) -> (value: &mut T)
        requires
            old(self)@.dom().contains(key),
        ensures
            *value == old(self)@[key],
            final(self)@ == old(self)@.insert(key, *final(value)),
    {
        match &mut self.slots[key] {
            Some(value) => value,
            None => vstd::pervasive::unreached(),
        }
    }
}

/// The first free slot at or behind a place.
pub open spec fn first_free<T>(slots: Seq<Option<T>>, from: nat) -> nat
    decreases slots.len() - from,
{
    if from < slots.len() && slots[from as int] is Some {
        first_free(slots, from + 1)
    } else {
        from
    }
}

proof fn lemma_first_free<T>(slots: Seq<Option<T>>, from: nat)
    requires
        from <= slots.len(),
    ensures
        from <= first_free(slots, from) <= slots.len(),
        first_free(slots, from) < slots.len() ==> slots[first_free(slots, from) as int] is None,
        forall|k: int| from <= k < first_free(slots, from) ==> (#[trigger] slots[k]) is Some,
    decreases slots.len() - from,
{
    if from < slots.len() && slots[from as int] is Some {
        lemma_first_free(slots, from + 1);
    }
}

impl<T> Slots<T> {
    /// The next value gets the least number that no value has.
    pub proof fn least_free_number_is_next(&self, key: usize)
        ensures
            key < self.next_key() ==> self@.dom().contains(key),
            key == self.next_key() ==> !self@.dom().contains(key),
    {
        lemma_first_free(self.slots@, 0);
    }
}

} // verus!
