//! A map keyed by text, kept as a list of slots in ascending key order, so
//! that no key occurs twice and the keys are walked in a fixed order.

use crate::text::{
    lemma_lex_le_antisym, lemma_lex_le_refl, lemma_lex_le_total, lemma_lex_le_trans, lex_lt,
    str_eq, str_le,
};
use vstd::prelude::*;

verus! {

/// One key with its value.
pub struct Slot<V> {
    pub key: String,
    pub value: V,
}

/// The keys of a list of slots ascend strictly.
pub open spec fn ascending<V>(slots: Seq<Slot<V>>) -> bool {
    forall|i: int, j: int|
        0 <= i < j < slots.len() ==> lex_lt(#[trigger] slots[i].key@, #[trigger] slots[j].key@)
}

/// Some slot carries the key.
pub open spec fn has_key<V>(slots: Seq<Slot<V>>, key: Seq<char>) -> bool {
    exists|i: int| 0 <= i < slots.len() && #[trigger] slots[i].key@ == key
}

/// The index of a slot that carries the key.
pub open spec fn index_of<V>(slots: Seq<Slot<V>>, key: Seq<char>) -> int {
    choose|i: int| 0 <= i < slots.len() && #[trigger] slots[i].key@ == key
}

/// The map that a list of slots stands for.
pub open spec fn slots_map<V>(slots: Seq<Slot<V>>) -> Map<Seq<char>, V> {
    Map::new(|k: Seq<char>| has_key(slots, k), |k: Seq<char>| slots[index_of(slots, k)].value)
}

/// In an ascending list, the slot that carries a key is the one the map
/// reads.
pub proof fn lemma_slot_is_binding<V>(slots: Seq<Slot<V>>, at: int)
    requires
        ascending(slots),
        0 <= at < slots.len(),
    ensures
        slots_map(slots).contains_key(slots[at].key@),
        slots_map(slots)[slots[at].key@] == slots[at].value,
        index_of(slots, slots[at].key@) == at,
{
    let k = slots[at].key@;
    let i = index_of(slots, k);
    assert(slots[i].key@ == k);
    if i < at {
        assert(lex_lt(slots[i].key@, slots[at].key@));
    } else if at < i {
        assert(lex_lt(slots[at].key@, slots[i].key@));
    }
}

/// A key that lies strictly between the keys before `at` and the keys from
/// `at` on is carried by no slot.
pub proof fn lemma_gap_is_unbound<V>(slots: Seq<Slot<V>>, key: Seq<char>, at: int)
    requires
        0 <= at <= slots.len(),
        forall|j: int| 0 <= j < at ==> lex_lt(#[trigger] slots[j].key@, key),
        forall|j: int| at <= j < slots.len() ==> lex_lt(key, #[trigger] slots[j].key@),
    ensures
        !has_key(slots, key),
{
    if has_key(slots, key) {
        let i = index_of(slots, key);
        if i < at {
            assert(lex_lt(slots[i].key@, key));
        } else {
            assert(lex_lt(key, slots[i].key@));
        }
    }
}

/// Where `key` belongs in an ascending list: the count of slots whose keys
/// come strictly before it, and whether the slot there carries it.
fn locate<V>(slots: &Vec<Slot<V>>, key: &str) -> (place: (usize, bool))
    requires
        ascending(slots@),
    ensures
        place.0 <= slots.len(),
        forall|j: int| 0 <= j < place.0 ==> lex_lt(#[trigger] slots[j].key@, key@),
        place.1 ==> place.0 < slots.len() && slots[place.0 as int].key@ == key@,
        !place.1 ==> forall|j: int|
            place.0 <= j < slots.len() ==> lex_lt(key@, #[trigger] slots[j].key@),
        place.1 == has_key(slots@, key@),
{
    let mut i: usize = 0;
    while i < slots.len()
        invariant
            i <= slots.len(),
            ascending(slots@),
            forall|j: int| 0 <= j < i ==> lex_lt(#[trigger] slots[j].key@, key@),
        decreases slots.len() - i,
    {
        let here = slots[i].key.as_str();
        if str_le(key, here) {
            let found = str_eq(key, here);
            proof {
                if !found {
                    assert forall|j: int| i <= j < slots.len() implies lex_lt(
                        key@,
                        #[trigger] slots[j].key@,
                    ) by {
                        if j > i {
                            assert(lex_lt(slots[i as int].key@, slots[j].key@));
                            lemma_lex_le_trans(key@, here@, slots[j].key@);
                            if key@ == slots[j].key@ {
                                lemma_lex_le_antisym(here@, slots[j].key@);
                            }
                        }
                    }
                    lemma_gap_is_unbound(slots@, key@, i as int);
                }
            }
            return (i, found);
        }
        proof {
            lemma_lex_le_total(key@, here@);
            lemma_lex_le_refl(key@);
        }
        i = i + 1;
    }
    proof {
        lemma_gap_is_unbound(slots@, key@, i as int);
    }
    (i, false)
}

/// A map from text keys to values, with its keys in ascending order.
pub struct StrMap<V> {
    slots: Vec<Slot<V>>,
}

impl<V> View for StrMap<V> {
    type V = Map<Seq<char>, V>;

    closed spec fn view(&self) -> Map<Seq<char>, V> {
        slots_map(self.slots@)
    }
}

impl<V> StrMap<V> {
    /// The keys ascend strictly, so none occurs twice.
    #[verifier::type_invariant]
    pub closed spec fn well_formed(&self) -> bool {
        ascending(self.slots@)
    }

    /// The keys in the order in which they are walked.
    pub closed spec fn keys(&self) -> Seq<Seq<char>> {
        Seq::new(self.slots@.len(), |i: int| self.slots@[i].key@)
    }

    /// The walked keys ascend strictly, are exactly the bound keys, and so
    /// name each binding once.
    pub proof fn lemma_keys(&self)
        requires
            self.well_formed(),
        ensures
            forall|i: int, j: int|
                0 <= i < j < self.keys().len() ==> lex_lt(
                    #[trigger] self.keys()[i],
                    #[trigger] self.keys()[j],
                ),
            forall|i: int| 0 <= i < self.keys().len() ==> self@.contains_key(#[trigger] self.keys()[i]),
            forall|k: Seq<char>| #[trigger] self@.contains_key(k) ==> self.keys().contains(k),
    {
        assert forall|i: int, j: int| 0 <= i < j < self.keys().len() implies lex_lt(
            #[trigger] self.keys()[i],
            #[trigger] self.keys()[j],
        ) by {
            assert(lex_lt(self.slots@[i].key@, self.slots@[j].key@));
        }
        assert forall|i: int| 0 <= i < self.keys().len() implies self@.contains_key(
            #[trigger] self.keys()[i],
        ) by {
            lemma_slot_is_binding(self.slots@, i);
        }
        assert forall|k: Seq<char>| #[trigger] self@.contains_key(k) implies self.keys().contains(
            k,
        ) by {
            let i = index_of(self.slots@, k);
            assert(self.keys()[i] == k);
        }
    }

    /// A map with no bindings.
    pub fn new() -> (map: Self)
        ensures
            map.well_formed(),
            map@ == Map::<Seq<char>, V>::empty(),
            map.keys() == Seq::<Seq<char>>::empty(),
    {
        let map = StrMap { slots: Vec::new() };
        proof {
            assert(map@ =~= Map::<Seq<char>, V>::empty());
            assert(map.keys() =~= Seq::<Seq<char>>::empty());
        }
        map
    }

    /// The number of bindings.
    pub fn len(&self) -> (n: usize)
        ensures
            n == self.keys().len(),
    {
        self.slots.len()
    }

    /// The key at a position of the walk.
    pub fn key_at(&self, i: usize) -> (key: &str)
        requires
            i < self.keys().len(),
        ensures
            key@ == self.keys()[i as int],
            self@.contains_key(key@),
    {
        proof {
            use_type_invariant(self);
            lemma_slot_is_binding(self.slots@, i as int);
        }
        self.slots[i].key.as_str()
    }

    /// The value bound to the key at a position of the walk.
    pub fn value_at(&self, i: usize) -> (value: &V)
        requires
            i < self.keys().len(),
        ensures
            self@.contains_key(self.keys()[i as int]),
            *value == self@[self.keys()[i as int]],
    {
        proof {
            use_type_invariant(self);
            lemma_slot_is_binding(self.slots@, i as int);
        }
        &self.slots[i].value
    }

    /// The value bound to `key`, if any.
    pub fn get(&self, key: &str) -> (found: Option<&V>)
        ensures
            match found {
                Some(value) => self@.contains_key(key@) && *value == self@[key@],
                None => !self@.contains_key(key@),
            },
    {
        proof {
            use_type_invariant(self);
        }
        let (at, present) = locate(&self.slots, key);
        if present {
            proof {
                lemma_slot_is_binding(self.slots@, at as int);
            }
            Some(&self.slots[at].value)
        } else {
            None
        }
    }

    /// Whether `key` is bound.
    pub fn contains_key(&self, key: &str) -> (present: bool)
        ensures
            present == self@.contains_key(key@),
    {
        self.get(key).is_some()
    }

    /// Binds `key` to `value`, replacing what it was bound to.
    pub fn insert(&mut self, key: String, value: V)
        ensures
            final(self).well_formed(),
            final(self)@ == old(self)@.insert(key@, value),
    {
        proof {
            use_type_invariant(&*self);
        }
        let mut slots: Vec<Slot<V>> = Vec::new();
        std::mem::swap(&mut slots, &mut self.slots);
        let ghost before = slots@;
        let (at, present) = locate(&slots, key.as_str());
        if present {
            slots.remove(at);
        }
        slots.insert(at, Slot { key, value });
        proof {
            let after = slots@;
            assert(ascending(after)) by {
                assert forall|i: int, j: int| 0 <= i < j < after.len() implies lex_lt(
                    #[trigger] after[i].key@,
                    #[trigger] after[j].key@,
                ) by {
                    let bi = if i < at { i } else if present { i } else { i - 1 };
                    let bj = if j < at { j } else if present { j } else { j - 1 };
                    if i != at && j != at {
                        assert(after[i] == before[bi]);
                        assert(after[j] == before[bj]);
                    } else if i == at {
                        assert(after[j] == before[bj]);
                    } else {
                        assert(after[i] == before[bi]);
                    }
                }
            }
            assert(slots_map(after) =~= slots_map(before).insert(key@, value)) by {
                assert forall|k: Seq<char>| slots_map(after).contains_key(k) implies #[trigger] slots_map(
                    before,
                ).insert(key@, value).contains_key(k) by {
                    let i = index_of(after, k);
                    if i != at {
                        let bi = if i < at { i } else if present { i } else { i - 1 };
                        assert(after[i] == before[bi]);
                    }
                }
                assert forall|k: Seq<char>| #[trigger] slots_map(before).insert(
                    key@,
                    value,
                ).contains_key(k) implies slots_map(after).contains_key(k) && slots_map(after)[k]
                    == slots_map(before).insert(key@, value)[k] by {
                    if k == key@ {
                        assert(after[at as int].key@ == k);
                        lemma_slot_is_binding(after, at as int);
                    } else {
                        let bi = index_of(before, k);
                        lemma_slot_is_binding(before, bi);
                        let i = if bi < at { bi } else if present { bi } else { bi + 1 };
                        assert(after[i] == before[bi]);
                        lemma_slot_is_binding(after, i);
                    }
                }
            }
        }
        self.slots = slots;
    }

    /// Unbinds `key` and hands back what it was bound to.
    pub fn remove(&mut self, key: &str) -> (taken: Option<V>)
        ensures
            final(self).well_formed(),
            final(self)@ == old(self)@.remove(key@),
            taken == (if old(self)@.contains_key(key@) {
                Some(old(self)@[key@])
            } else {
                None
            }),
    {
        proof {
            use_type_invariant(&*self);
        }
        let mut slots: Vec<Slot<V>> = Vec::new();
        std::mem::swap(&mut slots, &mut self.slots);
        let ghost before = slots@;
        let (at, present) = locate(&slots, key);
        let taken = if present {
            proof {
                lemma_slot_is_binding(before, at as int);
            }
            let slot = slots.remove(at);
            Some(slot.value)
        } else {
            None
        };
        proof {
            let after = slots@;
            assert(ascending(after)) by {
                assert forall|i: int, j: int| 0 <= i < j < after.len() implies lex_lt(
                    #[trigger] after[i].key@,
                    #[trigger] after[j].key@,
                ) by {
                    let bi = if present && i >= at { i + 1 } else { i };
                    let bj = if present && j >= at { j + 1 } else { j };
                    assert(after[i] == before[bi]);
                    assert(after[j] == before[bj]);
                }
            }
            assert(slots_map(after) =~= slots_map(before).remove(key@)) by {
                assert forall|k: Seq<char>| slots_map(after).contains_key(k) implies #[trigger] slots_map(
                    before,
                ).remove(key@).contains_key(k) by {
                    let i = index_of(after, k);
                    let bi = if present && i >= at { i + 1 } else { i };
                    assert(after[i] == before[bi]);
                    lemma_slot_is_binding(before, bi);
                    if present {
                        lemma_slot_is_binding(before, at as int);
                    }
                }
                assert forall|k: Seq<char>| #[trigger] slots_map(before).remove(key@).contains_key(
                    k,
                ) implies slots_map(after).contains_key(k) && slots_map(after)[k] == slots_map(
                    before,
                ).remove(key@)[k] by {
                    let bi = index_of(before, k);
                    lemma_slot_is_binding(before, bi);
                    let i = if present && bi > at { bi - 1 } else { bi };
                    assert(after[i] == before[bi]);
                    lemma_slot_is_binding(after, i);
                }
            }
        }
        self.slots = slots;
        taken
    }
}

} // verus!
