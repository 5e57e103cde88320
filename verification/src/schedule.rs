//! Schedules: which class occupies which slot of the week.

use vstd::prelude::*;
use vstd::set_lib::lemma_map_size;
use std::collections::HashMap;
use crate::slot::{Day, Period};

verus! {

/// The number under which a slot is filed: 256 times the position of its
/// day in the week, plus its period number.
pub open spec fn slot_key(slot: Period) -> u16 {
    (slot.0.spec_index() * 256 + slot.1) as u16
}

/// The slot that is filed under `key`, where `key` is below 1280.
pub open spec fn key_slot(key: u16) -> Period {
    Period(
        match Day::spec_from_index((key / 256) as nat) {
            Some(day) => day,
            None => Day::Friday,
        },
        (key % 256) as u8,
    )
}

/// Different slots are filed under different numbers, all below 1280.
pub proof fn lemma_slot_key_round_trip(slot: Period)
    ensures
        key_slot(slot_key(slot)) == slot,
        slot_key(slot) < 1280,
{
    slot.0.lemma_index_round_trip();
}

/// A number below 1280 is the number of the slot it stands for.
pub proof fn lemma_key_slot_round_trip(key: u16)
    requires
        key < 1280,
    ensures
        slot_key(key_slot(key)) == key,
{
}

/// What is left of `taken` for a list of periods: the list fits when no
/// period in it is taken and none occurs in it twice.
pub open spec fn fits(taken: Map<Period, Seq<char>>, periods: Seq<Period>) -> bool {
    &&& periods.no_duplicates()
    &&& forall|i: int| 0 <= i < periods.len() ==> !taken.contains_key(#[trigger] periods[i])
}

/// `taken`, and every period of `periods` given to the class `name`.
pub open spec fn placed(
    taken: Map<Period, Seq<char>>,
    periods: Seq<Period>,
    name: Seq<char>,
) -> Map<Period, Seq<char>> {
    Map::new(
        |slot: Period| taken.contains_key(slot) || periods.contains(slot),
        |slot: Period|
            if periods.contains(slot) {
                name
            } else {
                taken[slot]
            },
    )
}

/// A partial or complete weekly schedule: for each occupied slot, the name
/// of the class that occupies it. A slot has at most one class.
#[derive(Debug, PartialEq, Eq)]
pub struct Schedule {
    slots: HashMap<u16, String>,
}

impl View for Schedule {
    type V = Map<Period, Seq<char>>;

    closed spec fn view(&self) -> Map<Period, Seq<char>> {
        Map::new(
            |slot: Period| self.slots@.contains_key(slot_key(slot)),
            |slot: Period| self.slots@[slot_key(slot)]@,
        )
    }
}

impl Clone for Schedule {
    /// An independent copy: changing one leaves the other as it was.
    fn clone(&self) -> (copy: Schedule)
        ensures
            copy@ == self@,
    {
        proof {
            use_type_invariant(self);
        }
        Schedule { slots: self.slots.clone() }
    }
}

impl Schedule {
    #[verifier::type_invariant]
    closed spec fn keys_are_slots(self) -> bool {
        forall|key: u16| self.slots@.contains_key(key) ==> key < 1280
    }

    fn key_of(slot: Period) -> (key: u16)
        ensures
            key == slot_key(slot),
            key < 1280,
    {
        let day: u16 = slot.0.index() as u16;
        day * 256 + slot.1 as u16
    }

    /// The schedule in which no slot is occupied.
    pub fn new() -> (schedule: Schedule)
        ensures
            schedule@ == Map::<Period, Seq<char>>::empty(),
    {
        let schedule = Schedule { slots: HashMap::new() };
        assert(schedule@ =~= Map::<Period, Seq<char>>::empty());
        schedule
    }

    /// Gives `slot` to `class`. Returns the class that held the slot before,
    /// if there was one; that class loses the slot.
    pub fn insert(&mut self, slot: Period, class: String) -> (previous: Option<String>)
        ensures
            final(self)@ == old(self)@.insert(slot, class@),
            match previous {
                Some(name) => old(self)@.contains_key(slot) && old(self)@[slot] == name@,
                None => !old(self)@.contains_key(slot),
            },
    {
        broadcast use vstd::std_specs::hash::group_hash_axioms;

        proof {
            use_type_invariant(&*self);
        }
        let key: u16 = Schedule::key_of(slot);
        let ghost before = self.slots@;
        let mut slots: HashMap<u16, String> = HashMap::new();
        std::mem::swap(&mut self.slots, &mut slots);
        let previous = slots.insert(key, class);
        std::mem::swap(&mut self.slots, &mut slots);
        proof {
            assert(self.slots@ == before.insert(key, class));
            assert forall|other: Period| slot_key(other) == key implies other == slot by {
                lemma_slot_key_round_trip(other);
                lemma_slot_key_round_trip(slot);
            }
            assert(self@ =~= old(self)@.insert(slot, class@));
        }
        previous
    }

    /// The class that occupies `slot`, if one does.
    pub fn get(&self, slot: Period) -> (class: Option<&String>)
        ensures
            match class {
                Some(name) => self@.contains_key(slot) && self@[slot] == name@,
                None => !self@.contains_key(slot),
            },
    {
        broadcast use vstd::std_specs::hash::group_hash_axioms;

        let key: u16 = Schedule::key_of(slot);
        self.slots.get(&key)
    }

    /// Whether `slot` is occupied.
    pub fn contains(&self, slot: Period) -> (occupied: bool)
        ensures
            occupied == self@.contains_key(slot),
    {
        broadcast use vstd::std_specs::hash::group_hash_axioms;

        let key: u16 = Schedule::key_of(slot);
        self.slots.contains_key(&key)
    }

    /// The occupied slots are finitely many, as many as there are entries.
    proof fn lemma_slots_counted(&self)
        requires
            self.keys_are_slots(),
        ensures
            self@.dom().finite(),
            self@.dom().len() == self.slots@.dom().len(),
    {
        broadcast use vstd::std_specs::hash::group_hash_axioms;

        let keys = self.slots@.dom();
        let slots = self@.dom();
        let f = |key: u16| key_slot(key);
        assert forall|a: u16, b: u16|
            keys.contains(a) && keys.contains(b) && #[trigger] f(a) == #[trigger] f(b) implies a
            == b by {
            lemma_key_slot_round_trip(a);
            lemma_key_slot_round_trip(b);
        }
        assert forall|slot: Period| slots.contains(slot) implies keys.map(f).contains(slot) by {
            lemma_slot_key_round_trip(slot);
            assert(keys.contains(slot_key(slot)) && f(slot_key(slot)) == slot);
        }
        assert forall|slot: Period| keys.map(f).contains(slot) implies slots.contains(slot) by {
            let key = choose|key: u16| keys.contains(key) && slot == f(key);
            lemma_key_slot_round_trip(key);
        }
        assert(keys.map(f) =~= slots);
        lemma_map_size(keys, slots, f);
    }

    /// The number of occupied slots.
    pub fn len(&self) -> (count: usize)
        ensures
            self@.dom().finite(),
            count == self@.dom().len(),
    {
        broadcast use vstd::std_specs::hash::group_hash_axioms;

        proof {
            use_type_invariant(self);
            self.lemma_slots_counted();
        }
        self.slots.len()
    }

    /// Whether no slot is occupied.
    pub fn is_empty(&self) -> (empty: bool)
        ensures
            empty == (self@ == Map::<Period, Seq<char>>::empty()),
    {
        broadcast use vstd::std_specs::hash::group_hash_axioms;

        let count: usize = self.len();
        proof {
            if count == 0 {
                assert(self@.dom() =~= Set::<Period>::empty());
                assert(self@ =~= Map::<Period, Seq<char>>::empty());
            }
        }
        count == 0
    }

    /// A copy of this schedule in which `class` also occupies every period
    /// of `periods`, provided that they fit: none of them is occupied here
    /// and none occurs twice in the list. Where they do not fit there is no
    /// such schedule. This schedule is left as it was either way.
    pub fn with_section(&self, periods: &Vec<Period>, class: &String) -> (extended: Option<
        Schedule,
    >)
        ensures
            extended is Some <==> fits(self@, periods@),
            extended matches Some(schedule) ==> schedule@ == placed(self@, periods@, class@),
    {
        let mut copy = self.clone();
        let mut i: usize = 0;
        assert(copy@ =~= placed(self@, periods@.take(0), class@));
        while i < periods.len()
            invariant
                i <= periods.len(),
                fits(self@, periods@.take(i as int)),
                copy@ == placed(self@, periods@.take(i as int), class@),
            decreases periods.len() - i,
        {
            let slot = periods[i];
            let ghost done = periods@.take(i as int);
            let ghost upto = periods@.take(i + 1);
            let previous = copy.insert(slot, class.clone());
            if previous.is_some() {
                proof {
                    if done.contains(slot) {
                        let j = choose|j: int| 0 <= j < done.len() && done[j] == slot;
                        assert(periods@[j] == periods@[i as int]);
                    }
                }
                return None;
            }
            proof {
                assert(upto =~= done.push(slot));
                assert(!done.contains(slot));
                assert(upto.no_duplicates()) by {
                    assert forall|a: int, b: int|
                        0 <= a < upto.len() && 0 <= b < upto.len() && a != b implies upto[a]
                        != upto[b] by {
                        if a < i && b < i {
                            assert(done[a] != done[b]);
                        } else if a < i {
                            assert(done[a] == upto[a]);
                        } else {
                            assert(done[b] == upto[b]);
                        }
                    }
                }
                assert forall|slot2: Period| upto.contains(slot2) <==> (done.contains(slot2)
                    || slot2 == slot) by {
                    if upto.contains(slot2) {
                        let j = choose|j: int| 0 <= j < upto.len() && upto[j] == slot2;
                        if j < i {
                            assert(done[j] == slot2);
                        }
                    }
                    if done.contains(slot2) {
                        let j = choose|j: int| 0 <= j < done.len() && done[j] == slot2;
                        assert(upto[j] == slot2);
                    }
                    assert(upto[i as int] == slot);
                }
                assert(copy@ =~= placed(self@, upto, class@));
            }
            i = i + 1;
        }
        assert(periods@.take(periods.len() as int) =~= periods@);
        Some(copy)
    }
}

} // verus!
