//! Filter fields: one bitmap of slots per distinct value of a field.

use crate::bitmap::bits;
use crate::pairs::{find_value, pairs_map};
use crate::text::text_eq;
use roaring::RoaringBitmap;
use vstd::prelude::*;

verus! {

/// The slots of the first entry for `key`, from position `n` on.
pub open spec fn slots_for(values: Seq<(u64, RoaringBitmap)>, key: u64, n: int) -> Set<u32>
    decreases values.len() - n,
{
    if n >= values.len() {
        Set::empty()
    } else if values[n].0 == key {
        bits(values[n].1)
    } else {
        slots_for(values, key, n + 1)
    }
}

/// One filter field: a bitmap for each value key.
pub struct FilterField {
    pub name: String,
    pub values: Vec<(u64, RoaringBitmap)>,
}

impl FilterField {
    /// The slots whose value has the key `key`.
    pub open spec fn slots_with(self, key: u64) -> Set<u32> {
        slots_for(self.values@, key, 0)
    }

    /// A field without values.
    pub fn new(name: String) -> (r: Self)
        ensures
            r.name@ == name@,
            forall|key: u64| #[trigger] r.slots_with(key) == Set::<u32>::empty(),
    {
        FilterField { name, values: Vec::new() }
    }

    fn position(&self, key: u64) -> (r: Option<usize>)
        ensures
            match r {
                Some(i) => {
                    &&& i < self.values@.len()
                    &&& self.values@[i as int].0 == key
                    &&& forall|j: int| 0 <= j < i ==> (#[trigger] self.values@[j]).0 != key
                    &&& self.slots_with(key) == bits(self.values@[i as int].1)
                },
                None => {
                    &&& forall|j: int| 0 <= j < self.values@.len() ==> (#[trigger] self.values@[j]).0 != key
                    &&& self.slots_with(key) == Set::<u32>::empty()
                },
            },
    {
        let mut i: usize = 0;
        while i < self.values.len()
            invariant
                i <= self.values@.len(),
                forall|j: int| 0 <= j < i ==> (#[trigger] self.values@[j]).0 != key,
                self.slots_with(key) == slots_for(self.values@, key, i as int),
            decreases self.values@.len() - i,
        {
            if self.values[i].0 == key {
                return Some(i);
            }
            i = i + 1;
        }
        None
    }

    /// Records that `slot` has the value `key`.
    pub fn insert(&mut self, key: u64, slot: u32)
        ensures
            final(self).name == old(self).name,
            forall|k: u64| #[trigger]
                final(self).slots_with(k) == if k == key {
                    old(self).slots_with(k).insert(slot)
                } else {
                    old(self).slots_with(k)
                },
    {
        let ghost before = self.values@;
        match self.position(key) {
            Some(i) => {
                let mut entry = self.values.remove(i);
                entry.1.insert(slot);
                let ghost filled = entry;
                self.values.insert(i, entry);
                assert(self.values@ =~= before.update(i as int, filled));
                assert forall|k: u64| #[trigger] self.slots_with(k) == if k == key {
                    old(self).slots_with(k).insert(slot)
                } else {
                    old(self).slots_with(k)
                } by {
                    lemma_update(before, self.values@, i as int, k, 0);
                }
            },
            None => {
                let mut bm = RoaringBitmap::new();
                bm.insert(slot);
                self.values.push((key, bm));
                assert(self.values@ =~= before.push((key, bm)));
                assert forall|k: u64| #[trigger] self.slots_with(k) == if k == key {
                    old(self).slots_with(k).insert(slot)
                } else {
                    old(self).slots_with(k)
                } by {
                    lemma_push(before, key, bm, k, 0);
                    assert(Set::<u32>::empty().insert(slot) =~= bits(bm));
                }
            },
        }
    }

    /// How many slots have the value `key`.
    pub fn cardinality(&self, key: u64) -> (r: u64)
        ensures
            r == self.slots_with(key).len(),
    {
        match self.position(key) {
            Some(i) => self.values[i].1.len(),
            None => 0,
        }
    }
}

proof fn lemma_update(
    before: Seq<(u64, RoaringBitmap)>,
    after: Seq<(u64, RoaringBitmap)>,
    i: int,
    k: u64,
    n: int,
)
    requires
        0 <= i < before.len(),
        0 <= n,
        after == before.update(i, after[i]),
        after[i].0 == before[i].0,
        forall|j: int| 0 <= j < i ==> (#[trigger] before[j]).0 != before[i].0,
    ensures
        k != before[i].0 ==> slots_for(after, k, n) == slots_for(before, k, n),
        k == before[i].0 && n <= i ==> slots_for(after, k, n) == bits(after[i].1) && slots_for(before, k, n) == bits(
            before[i].1,
        ),
    decreases before.len() - n,
{
    if n < before.len() {
        if n != i {
            assert(after[n] == before[n]);
        }
        lemma_update(before, after, i, k, n + 1);
    }
}

proof fn lemma_push(before: Seq<(u64, RoaringBitmap)>, key: u64, bm: RoaringBitmap, k: u64, n: int)
    requires
        0 <= n <= before.len(),
        forall|j: int| 0 <= j < before.len() ==> (#[trigger] before[j]).0 != key,
    ensures
        slots_for(before.push((key, bm)), k, n) == if k == key { bits(bm) } else { slots_for(before, k, n) },
    decreases before.len() - n,
{
    let after = before.push((key, bm));
    if n < before.len() {
        assert(after[n] == before[n]);
        lemma_push(before, key, bm, k, n + 1);
    } else {
        assert(after[n] == (key, bm));
        assert(slots_for(after, k, n + 1) == Set::<u32>::empty());
    }
}

/// The first field named `name`, from position `n` on.
pub open spec fn field_position(fields: Seq<FilterField>, name: Seq<char>, n: int) -> Option<int>
    decreases fields.len() - n,
{
    if n >= fields.len() {
        None
    } else if fields[n].name@ == name {
        Some(n)
    } else {
        field_position(fields, name, n + 1)
    }
}

/// The filter fields of an index.
pub struct FilterIndex {
    pub fields: Vec<FilterField>,
}

impl FilterIndex {
    /// An index without fields.
    pub fn new() -> (r: Self)
        ensures
            r.fields@ == Seq::<FilterField>::empty(),
    {
        FilterIndex { fields: Vec::new() }
    }

    /// Adds a field without values.
    pub fn add_field(&mut self, name: &str)
        ensures
            final(self).fields@.len() == old(self).fields@.len() + 1,
            final(self).fields@.drop_last() == old(self).fields@,
            final(self).fields@.last().name@ == name@,
            forall|key: u64| #[trigger] final(self).fields@.last().slots_with(key) == Set::<u32>::empty(),
    {
        let ghost before = self.fields@;
        self.fields.push(FilterField::new(name.to_owned()));
        assert(self.fields@.drop_last() =~= before);
    }

    /// The field named `name`, as its position.
    pub fn get_field(&self, name: &str) -> (r: Option<usize>)
        ensures
            match r {
                Some(i) => i < self.fields@.len() && field_position(self.fields@, name@, 0) == Some(i as int),
                None => field_position(self.fields@, name@, 0) is None,
            },
    {
        let mut i: usize = 0;
        while i < self.fields.len()
            invariant
                i <= self.fields@.len(),
                field_position(self.fields@, name@, 0) == field_position(self.fields@, name@, i as int),
            decreases self.fields@.len() - i,
        {
            if text_eq(self.fields[i].name.as_str(), name) {
                return Some(i);
            }
            i = i + 1;
        }
        None
    }
}

/// The slots that are in use.
pub struct SlotAllocator {
    alive: RoaringBitmap,
}

impl SlotAllocator {
    /// The slots that are in use.
    pub closed spec fn alive_slots(self) -> Set<u32> {
        bits(self.alive)
    }

    /// No slot in use.
    pub fn new() -> (r: Self)
        ensures
            r.alive_slots() == Set::<u32>::empty(),
    {
        SlotAllocator { alive: RoaringBitmap::new() }
    }

    /// Marks `slot` as in use.
    pub fn set_alive(&mut self, slot: u32)
        ensures
            final(self).alive_slots() == old(self).alive_slots().insert(slot),
    {
        self.alive.insert(slot);
    }

    /// How many slots are in use.
    pub fn alive_count(&self) -> (r: u64)
        ensures
            r == self.alive_slots().len(),
    {
        self.alive.len()
    }
}

/// The keys of the texts of one field.
#[derive(Debug)]
pub struct KeyTable {
    pub entries: Vec<(String, i64)>,
}

impl View for KeyTable {
    type V = Map<Seq<char>, i64>;

    open spec fn view(&self) -> Map<Seq<char>, i64> {
        pairs_map(self.entries@)
    }
}

impl KeyTable {
    /// Looks up the key of a text.
    pub fn find_key(&self, text: &str) -> (r: Option<i64>)
        ensures
            match r {
                Some(k) => self@.dom().contains(text@) && self@[text@] == k,
                None => !self@.dom().contains(text@),
            },
    {
        match find_value(&self.entries, text) {
            Some(k) => Some(*k),
            None => None,
        }
    }
}

/// The slots of a key are those of its first entry: entries for other keys before it do not count, and
/// entries behind it do not either.
pub proof fn law_the_first_entry_of_a_key_counts(values: Seq<(u64, RoaringBitmap)>, i: int, key: u64)
    requires
        0 <= i < values.len(),
        values[i].0 == key,
        forall|j: int| 0 <= j < i ==> (#[trigger] values[j]).0 != key,
    ensures
        slots_for(values, key, 0) == bits(values[i].1),
{
    lemma_first_entry(values, i, key, 0);
}

proof fn lemma_first_entry(values: Seq<(u64, RoaringBitmap)>, i: int, key: u64, n: int)
    requires
        0 <= n <= i < values.len(),
        values[i].0 == key,
        forall|j: int| 0 <= j < i ==> (#[trigger] values[j]).0 != key,
    ensures
        slots_for(values, key, n) == bits(values[i].1),
    decreases i - n,
{
    if n < i {
        lemma_first_entry(values, i, key, n + 1);
    }
}

/// A key without an entry has no slots.
pub proof fn law_unknown_keys_have_no_slots(values: Seq<(u64, RoaringBitmap)>, key: u64)
    requires
        forall|j: int| 0 <= j < values.len() ==> (#[trigger] values[j]).0 != key,
    ensures
        slots_for(values, key, 0) == Set::<u32>::empty(),
{
    lemma_no_entry(values, key, 0);
}

proof fn lemma_no_entry(values: Seq<(u64, RoaringBitmap)>, key: u64, n: int)
    requires
        0 <= n,
        forall|j: int| 0 <= j < values.len() ==> (#[trigger] values[j]).0 != key,
    ensures
        slots_for(values, key, n) == Set::<u32>::empty(),
    decreases values.len() - n,
{
    if n < values.len() {
        lemma_no_entry(values, key, n + 1);
    }
}

/// A name stands for the first field that has it, and for none where no field has it.
pub proof fn law_fields_are_found_by_name(fields: Seq<FilterField>, name: Seq<char>)
    ensures
        match field_position(fields, name, 0) {
            Some(i) => {
                &&& 0 <= i < fields.len()
                &&& fields[i].name@ == name
                &&& forall|j: int| 0 <= j < i ==> (#[trigger] fields[j]).name@ != name
            },
            None => forall|j: int| 0 <= j < fields.len() ==> (#[trigger] fields[j]).name@ != name,
        },
{
    lemma_field_found(fields, name, 0);
}

proof fn lemma_field_found(fields: Seq<FilterField>, name: Seq<char>, n: int)
    requires
        0 <= n,
        forall|j: int| 0 <= j < n && j < fields.len() ==> (#[trigger] fields[j]).name@ != name,
    ensures
        match field_position(fields, name, n) {
            Some(i) => {
                &&& n <= i < fields.len()
                &&& fields[i].name@ == name
                &&& forall|j: int| 0 <= j < i ==> (#[trigger] fields[j]).name@ != name
            },
            None => forall|j: int| 0 <= j < fields.len() ==> (#[trigger] fields[j]).name@ != name,
        },
    decreases fields.len() - n,
{
    if n < fields.len() && fields[n].name@ != name {
        lemma_field_found(fields, name, n + 1);
    }
}

/// A field finds the slots of a key from its first value on.
pub proof fn law_fields_find_their_slots(field: FilterField)
    requires
        field.values@.len() > 0,
    ensures
        field.slots_with(field.values@[0].0) == bits(field.values@[0].1),
{
}

} // verus!
