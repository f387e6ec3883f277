//! Radix sort index: an 8-bit bucketed sort structure for large cache entries.
//!
//! Slots are bucketed by the top 8 bits of their sort value into 256 bitmaps. Cumulative
//! counts give the bucket of a page offset without walking the slots before it.

use crate::bitmap::{bits, lemma_slots_finite, serialized_len, slots};
use crate::query::SortDirection;
use roaring::RoaringBitmap;
use vstd::prelude::*;

verus! {

/// The slots of an optional bucket.
pub open spec fn slots_of(b: Option<RoaringBitmap>) -> Set<u32> {
    match b {
        Some(bm) => bits(bm),
        None => Set::empty(),
    }
}

/// The bucket of a sort value: its top 8 bits.
pub open spec fn prefix_of(value: u32) -> int {
    value as int / 0x100_0000
}

/// The number of slots in the buckets below `k`.
pub open spec fn count_below(sets: Seq<Set<u32>>, k: int) -> nat
    decreases k,
{
    if k <= 0 { 0 } else { count_below(sets, k - 1) + sets[k - 1].len() }
}

/// The number of slots in the buckets from `k` on.
pub open spec fn count_from(sets: Seq<Set<u32>>, k: int) -> nat
    decreases sets.len() - k,
{
    if k >= sets.len() { 0 } else { sets[k].len() + count_from(sets, k + 1) }
}

/// The number of slots over all buckets.
pub open spec fn count_all(sets: Seq<Set<u32>>) -> nat {
    count_below(sets, sets.len() as int)
}

/// The counts below and from a bucket make up the whole.
pub proof fn lemma_counts(sets: Seq<Set<u32>>, k: int)
    requires
        0 <= k <= sets.len(),
    ensures
        count_below(sets, k) + count_from(sets, k) == count_all(sets),
    decreases sets.len() - k,
{
    if k < sets.len() {
        lemma_counts(sets, k + 1);
    }
}

proof fn lemma_count_grows(sets: Seq<Set<u32>>, i: int, j: int)
    requires
        0 <= i <= j <= sets.len(),
    ensures
        count_below(sets, i) <= count_below(sets, j),
    decreases j - i,
{
    if i < j {
        lemma_count_grows(sets, i, j - 1);
    }
}

/// 8-bit radix sort index for fast pagination on large cache entries.
#[derive(Clone)]
pub struct RadixSortIndex {
    buckets: Vec<Option<RoaringBitmap>>,
    cumulative_desc: Vec<u32>,
    cumulative_asc: Vec<u32>,
    counts_dirty: bool,
}

fn prefix(value: u32) -> (p: usize)
    ensures
        p == prefix_of(value),
        p < 256,
{
    assert(value >> 24 == value / 0x100_0000) by (bit_vector);
    assert(value >> 24 < 256) by (bit_vector);
    (value >> 24) as usize
}

impl RadixSortIndex {
    /// The slots of each bucket.
    pub closed spec fn sets(self) -> Seq<Set<u32>> {
        Seq::new(self.buckets@.len(), |i: int| slots_of(self.buckets@[i]))
    }

    /// Which buckets have a bitmap. A bucket gets one with its first slot and keeps it, also when
    /// it loses its last.
    pub closed spec fn made(self) -> Seq<bool> {
        Seq::new(self.buckets@.len(), |i: int| self.buckets@[i] is Some)
    }

    /// Whether the cumulative counts are out of date.
    pub closed spec fn dirty(self) -> bool {
        self.counts_dirty
    }

    /// There are 256 buckets, and the counts agree with them where they are up to date.
    pub open spec fn wf(self) -> bool {
        &&& self.sets().len() == 256
        &&& self.made().len() == 256
        &&& self.counted()
    }

    /// Whether the counts agree with the buckets where they are up to date.
    pub closed spec fn counted(self) -> bool {
        &&& self.cumulative_desc@.len() == 256
        &&& self.cumulative_asc@.len() == 256
        &&& !self.counts_dirty ==> {
            &&& count_all(self.sets()) <= u32::MAX
            &&& forall|i: int|
                0 <= i < 256 ==> #[trigger] self.cumulative_desc@[i] == count_from(self.sets(), i)
            &&& forall|i: int|
                0 <= i < 256 ==> #[trigger] self.cumulative_asc@[i] == count_below(self.sets(), i + 1)
        }
    }

    fn empty() -> (r: Self)
        ensures
            r.wf(),
            r.dirty(),
            r.sets() == Seq::new(256, |i: int| Set::<u32>::empty()),
            r.made() == Seq::new(256, |i: int| false),
    {
        let mut buckets: Vec<Option<RoaringBitmap>> = Vec::new();
        let mut cumulative_desc: Vec<u32> = Vec::new();
        let mut cumulative_asc: Vec<u32> = Vec::new();
        let mut i: usize = 0;
        while i < 256
            invariant
                i <= 256,
                buckets@.len() == i,
                cumulative_desc@.len() == i,
                cumulative_asc@.len() == i,
                forall|j: int| 0 <= j < i ==> #[trigger] buckets@[j] is None,
            decreases 256 - i,
        {
            buckets.push(None);
            cumulative_desc.push(0);
            cumulative_asc.push(0);
            i = i + 1;
        }
        let r = RadixSortIndex { buckets, cumulative_desc, cumulative_asc, counts_dirty: true };
        assert(r.sets() =~= Seq::new(256, |i: int| Set::<u32>::empty()));
        assert(r.made() =~= Seq::new(256, |i: int| false));
        r
    }

    /// Inserts a slot with known sort value.
    pub fn insert(&mut self, slot: u32, sort_value: u32)
        requires
            old(self).wf(),
        ensures
            final(self).wf(),
            final(self).dirty(),
            final(self).sets() == old(self).sets().update(
                prefix_of(sort_value),
                old(self).sets()[prefix_of(sort_value)].insert(slot),
            ),
            final(self).made() == old(self).made().update(prefix_of(sort_value), true),
    {
        let p = prefix(sort_value);
        let ghost before = self.sets();
        let ghost made = self.made();
        let mut bucket: Option<RoaringBitmap> = None;
        std::mem::swap(&mut self.buckets[p], &mut bucket);
        let mut bm = match bucket {
            Some(bm) => bm,
            None => RoaringBitmap::new(),
        };
        bm.insert(slot);
        self.buckets[p] = Some(bm);
        self.counts_dirty = true;
        assert(self.sets() =~= before.update(p as int, before[p as int].insert(slot)));
        assert(self.made() =~= made.update(p as int, true));
    }

    /// Removes a slot with known sort value.
    pub fn remove(&mut self, slot: u32, sort_value: u32)
        requires
            old(self).wf(),
        ensures
            final(self).wf(),
            final(self).dirty(),
            final(self).sets() == old(self).sets().update(
                prefix_of(sort_value),
                old(self).sets()[prefix_of(sort_value)].remove(slot),
            ),
            final(self).made() == old(self).made(),
    {
        let p = prefix(sort_value);
        self.take_out(p, slot);
        self.counts_dirty = true;
    }

    fn take_out(&mut self, p: usize, slot: u32)
        requires
            old(self).buckets@.len() == 256,
            p < 256,
        ensures
            final(self).sets() == old(self).sets().update(p as int, old(self).sets()[p as int].remove(slot)),
            final(self).made() == old(self).made(),
            final(self).buckets@.len() == 256,
            final(self).cumulative_desc == old(self).cumulative_desc,
            final(self).cumulative_asc == old(self).cumulative_asc,
            final(self).counts_dirty == old(self).counts_dirty,
    {
        let ghost before = self.sets();
        let mut bucket: Option<RoaringBitmap> = None;
        std::mem::swap(&mut self.buckets[p], &mut bucket);
        match bucket {
            Some(bm) => {
                let mut bm = bm;
                bm.remove(slot);
                self.buckets[p] = Some(bm);
            },
            None => {},
        }
        assert(self.sets()[p as int] =~= before[p as int].remove(slot));
        assert(self.sets() =~= before.update(p as int, before[p as int].remove(slot)));
        assert(self.made() =~= old(self).made());
    }

    /// Removes a slot without knowing its sort value: the first bucket that holds it loses it.
    pub fn remove_blind(&mut self, slot: u32)
        requires
            old(self).wf(),
        ensures
            final(self).wf(),
            match first_holder(old(self).sets(), slot, 0) {
                Some(p) => {
                    &&& final(self).dirty()
                    &&& final(self).sets() == old(self).sets().update(p, old(self).sets()[p].remove(slot))
                    &&& final(self).made() == old(self).made()
                },
                None => *final(self) == *old(self),
            },
    {
        let mut i: usize = 0;
        while i < 256
            invariant
                i <= 256,
                *self == *old(self),
                self.wf(),
                first_holder(old(self).sets(), slot, 0) == first_holder(old(self).sets(), slot, i as int),
            decreases 256 - i,
        {
            let holds = match &self.buckets[i] {
                Some(bm) => bm.contains(slot),
                None => false,
            };
            assert(holds == old(self).sets()[i as int].contains(slot));
            if holds {
                self.take_out(i, slot);
                self.counts_dirty = true;
                return;
            }
            i = i + 1;
        }
    }

    fn bucket_len(&self, i: usize) -> (r: u32)
        requires
            self.buckets@.len() == 256,
            i < 256,
            self.sets()[i as int].len() <= u32::MAX,
        ensures
            r == self.sets()[i as int].len(),
    {
        match &self.buckets[i] {
            Some(bm) => bm.len() as u32,
            None => 0,
        }
    }

    /// Recomputes the cumulative counts from the buckets.
    pub fn rebuild_counts(&mut self)
        requires
            old(self).wf(),
            count_all(old(self).sets()) <= u32::MAX,
        ensures
            final(self).wf(),
            !final(self).dirty(),
            final(self).sets() == old(self).sets(),
            final(self).made() == old(self).made(),
    {
        let ghost sets = self.sets();
        let mut running: u32 = 0;
        let mut i: usize = 256;
        while i > 0
            invariant
                i <= 256,
                self.buckets@ == old(self).buckets@,
                self.buckets@.len() == 256,
                self.cumulative_desc@.len() == 256,
                self.cumulative_asc@.len() == 256,
                sets == self.sets(),
                sets.len() == 256,
                count_all(sets) <= u32::MAX,
                running == count_from(sets, i as int),
                forall|j: int| i <= j < 256 ==> #[trigger] self.cumulative_desc@[j] == count_from(sets, j),
            decreases i,
        {
            proof {
                lemma_counts(sets, i - 1);
            }
            let n = self.bucket_len(i - 1);
            running = n + running;
            self.cumulative_desc.set(i - 1, running);
            i = i - 1;
        }
        let mut total: u32 = 0;
        let mut k: usize = 0;
        while k < 256
            invariant
                k <= 256,
                self.buckets@ == old(self).buckets@,
                self.buckets@.len() == 256,
                self.cumulative_desc@.len() == 256,
                self.cumulative_asc@.len() == 256,
                sets == self.sets(),
                sets.len() == 256,
                count_all(sets) <= u32::MAX,
                total == count_below(sets, k as int),
                forall|j: int| 0 <= j < 256 ==> #[trigger] self.cumulative_desc@[j] == count_from(sets, j),
                forall|j: int| 0 <= j < k ==> #[trigger] self.cumulative_asc@[j] == count_below(sets, j + 1),
            decreases 256 - k,
        {
            proof {
                lemma_count_grows(sets, k + 1, 256);
            }
            let n = self.bucket_len(k);
            total = total + n;
            self.cumulative_asc.set(k, total);
            k = k + 1;
        }
        self.counts_dirty = false;
    }

    /// How many slots come up to the end of a bucket, in a direction.
    pub fn cumulative(&self, prefix: u8, direction: SortDirection) -> (r: u32)
        requires
            self.wf(),
            !self.dirty(),
        ensures
            r == (match direction {
                SortDirection::Desc => count_from(self.sets(), prefix as int),
                SortDirection::Asc => count_below(self.sets(), prefix + 1),
            }),
    {
        match direction {
            SortDirection::Desc => self.cumulative_desc[prefix as usize],
            SortDirection::Asc => self.cumulative_asc[prefix as usize],
        }
    }

    /// Whether the cumulative counts need rebuilding.
    pub fn is_dirty(&self) -> (r: bool)
        ensures
            r == self.dirty(),
    {
        self.counts_dirty
    }

    /// Total number of slots across all buckets.
    pub fn total_slots(&self) -> (r: u32)
        requires
            self.wf(),
            count_all(self.sets()) <= u32::MAX,
        ensures
            r == count_all(self.sets()),
    {
        if self.counts_dirty {
            let ghost sets = self.sets();
            let mut total: u32 = 0;
            let mut k: usize = 0;
            while k < 256
                invariant
                    k <= 256,
                    self.buckets@.len() == 256,
                    sets == self.sets(),
                    sets.len() == 256,
                    count_all(sets) <= u32::MAX,
                    total == count_below(sets, k as int),
                decreases 256 - k,
            {
                proof {
                    lemma_count_grows(sets, k + 1, 256);
                }
                let n = self.bucket_len(k);
                total = total + n;
                k = k + 1;
            }
            total
        } else {
            proof {
                lemma_counts(self.sets(), 0);
            }
            self.cumulative_desc[0]
        }
    }

    /// Finds the bucket of a page offset, and the offset within it. The counts are rebuilt
    /// first where they are out of date.
    pub fn offset_to_bucket(&mut self, offset: usize, direction: SortDirection) -> (r: Option<(u8, usize)>)
        requires
            old(self).wf(),
            count_all(old(self).sets()) <= u32::MAX,
        ensures
            final(self).wf(),
            !final(self).dirty(),
            final(self).sets() == old(self).sets(),
            final(self).made() == old(self).made(),
            r is Some <==> offset < count_all(final(self).sets()),
            match r {
                Some((bucket, within)) => {
                    &&& within < final(self).sets()[bucket as int].len()
                    &&& offset == within + match direction {
                        SortDirection::Desc => count_from(final(self).sets(), bucket + 1),
                        SortDirection::Asc => count_below(final(self).sets(), bucket as int),
                    }
                },
                None => offset >= count_all(final(self).sets()),
            },
    {
        if self.counts_dirty {
            self.rebuild_counts();
        }
        let ghost sets = self.sets();
        match direction {
            SortDirection::Desc => {
                let mut prev: usize = 0;
                let mut i: usize = 256;
                while i > 0
                    invariant
                        i <= 256,
                        self.wf(),
                        !self.dirty(),
                        sets == self.sets(),
                        sets == old(self).sets(),
                        self.made() == old(self).made(),
                        sets.len() == 256,
                        direction is Desc,
                        prev == count_from(sets, i as int),
                        prev <= offset,
                    decreases i,
                {
                    let cum: usize = self.cumulative_desc[i - 1] as usize;
                    assert(cum == count_from(sets, i - 1));
                    if cum > offset {
                        proof {
                            lemma_counts(sets, i - 1);
                        }
                        let bucket: u8 = (i - 1) as u8;
                        assert(bucket == i - 1);
                        return Some((bucket, offset - prev));
                    }
                    prev = cum;
                    i = i - 1;
                }
                proof {
                    lemma_counts(sets, 0);
                }
                None
            },
            SortDirection::Asc => {
                let mut prev: usize = 0;
                let mut i: usize = 0;
                while i < 256
                    invariant
                        i <= 256,
                        self.wf(),
                        !self.dirty(),
                        sets == self.sets(),
                        sets == old(self).sets(),
                        self.made() == old(self).made(),
                        sets.len() == 256,
                        direction is Asc,
                        prev == count_below(sets, i as int),
                        prev <= offset,
                    decreases 256 - i,
                {
                    let cum: usize = self.cumulative_asc[i] as usize;
                    assert(cum == count_below(sets, i + 1));
                    if cum > offset {
                        proof {
                            lemma_counts(sets, i + 1);
                        }
                        let bucket: u8 = i as u8;
                        assert(bucket == i);
                        return Some((bucket, offset - prev));
                    }
                    prev = cum;
                    i = i + 1;
                }
                None
            },
        }
    }

    /// The bucket with the given prefix.
    pub fn bucket(&self, prefix: u8) -> (r: Option<&RoaringBitmap>)
        requires
            self.wf(),
        ensures
            r is Some == self.made()[prefix as int],
            match r {
                Some(bm) => bits(*bm) == self.sets()[prefix as int],
                None => self.sets()[prefix as int] == Set::<u32>::empty(),
            },
    {
        self.buckets[prefix as usize].as_ref()
    }

    /// Walks the non-empty buckets in sort order: from 255 down, or from 0 up.
    pub fn iter_buckets(&self, direction: SortDirection) -> (r: RadixBucketIter<'_>)
        requires
            self.wf(),
        ensures
            r.wf(),
            r.sets() == self.sets(),
            r.ahead() == walk_order(self.sets(), direction),
    {
        let r = RadixBucketIter {
            buckets: &self.buckets,
            direction,
            pos: match direction {
                SortDirection::Desc => 255i16,
                SortDirection::Asc => 0i16,
            },
        };
        assert(r.sets() =~= self.sets());
        r
    }

    /// Number of non-empty buckets.
    pub fn populated_buckets(&self) -> (r: usize)
        requires
            self.wf(),
        ensures
            r == filled_below(self.sets(), 256),
    {
        let mut n: usize = 0;
        let mut i: usize = 0;
        while i < 256
            invariant
                i <= 256,
                self.wf(),
                n == filled_below(self.sets(), i as int),
                n <= i,
            decreases 256 - i,
        {
            let filled = match &self.buckets[i] {
                Some(bm) => !bm.is_empty(),
                None => false,
            };
            if filled {
                n = n + 1;
            }
            i = i + 1;
        }
        n
    }
}

/// The first bucket from `k` on that holds `slot`.
pub open spec fn first_holder(sets: Seq<Set<u32>>, slot: u32, k: int) -> Option<int>
    decreases sets.len() - k,
{
    if k >= sets.len() {
        None
    } else if sets[k].contains(slot) {
        Some(k)
    } else {
        first_holder(sets, slot, k + 1)
    }
}

/// How many of the buckets below `k` hold a slot.
pub open spec fn filled_below(sets: Seq<Set<u32>>, k: int) -> nat
    decreases k,
{
    if k <= 0 {
        0
    } else {
        filled_below(sets, k - 1) + (if sets[k - 1] == Set::<u32>::empty() { 0nat } else { 1nat })
    }
}

/// The non-empty buckets from `k` up.
pub open spec fn filled_up(sets: Seq<Set<u32>>, k: int) -> Seq<int>
    decreases sets.len() - k,
{
    if k >= sets.len() {
        Seq::empty()
    } else if sets[k] == Set::<u32>::empty() {
        filled_up(sets, k + 1)
    } else {
        seq![k] + filled_up(sets, k + 1)
    }
}

/// The non-empty buckets from `k` down.
pub open spec fn filled_down(sets: Seq<Set<u32>>, k: int) -> Seq<int>
    decreases k + 1,
{
    if k < 0 {
        Seq::empty()
    } else if sets[k] == Set::<u32>::empty() {
        filled_down(sets, k - 1)
    } else {
        seq![k] + filled_down(sets, k - 1)
    }
}

/// The non-empty buckets in the order of a walk.
pub open spec fn walk_order(sets: Seq<Set<u32>>, direction: SortDirection) -> Seq<int> {
    match direction {
        SortDirection::Desc => filled_down(sets, 255),
        SortDirection::Asc => filled_up(sets, 0),
    }
}

/// A walk over the non-empty buckets in sort order.
pub struct RadixBucketIter<'a> {
    buckets: &'a Vec<Option<RoaringBitmap>>,
    direction: SortDirection,
    pos: i16,
}

impl<'a> RadixBucketIter<'a> {
    /// The slots of each bucket.
    pub closed spec fn sets(self) -> Seq<Set<u32>> {
        Seq::new(self.buckets@.len(), |i: int| slots_of(self.buckets@[i]))
    }

    /// The position is within the buckets, or one past the end of the walk.
    pub closed spec fn wf(self) -> bool {
        &&& self.buckets@.len() == 256
        &&& match self.direction {
            SortDirection::Desc => -1 <= self.pos < 256,
            SortDirection::Asc => 0 <= self.pos <= 256,
        }
    }

    /// The buckets that are still to come.
    pub closed spec fn ahead(self) -> Seq<int> {
        match self.direction {
            SortDirection::Desc => filled_down(self.sets(), self.pos as int),
            SortDirection::Asc => filled_up(self.sets(), self.pos as int),
        }
    }

    /// The next non-empty bucket, with its prefix.
    pub fn next(&mut self) -> (r: Option<(u8, &'a RoaringBitmap)>)
        requires
            old(self).wf(),
        ensures
            final(self).wf(),
            final(self).sets() == old(self).sets(),
            match r {
                Some((prefix, bm)) => {
                    &&& old(self).ahead().len() > 0
                    &&& prefix == old(self).ahead()[0]
                    &&& bits(*bm) == old(self).sets()[prefix as int]
                    &&& final(self).ahead() == old(self).ahead().skip(1)
                },
                None => old(self).ahead().len() == 0 && final(self).ahead().len() == 0,
            },
    {
        let ghost sets = self.sets();
        let ghost start = self.ahead();
        let buckets = self.buckets;
        match self.direction {
            SortDirection::Desc => {
                while self.pos >= 0
                    invariant
                        self.wf(),
                        self.direction is Desc,
                        self.sets() == sets,
                        self.buckets == buckets,
                        buckets@.len() == 256,
                        sets == old(self).sets(),
                        start == old(self).ahead(),
                        self.pos < 256,
                        start == filled_down(sets, self.pos as int),
                    decreases self.pos + 1,
                {
                    let idx: usize = self.pos as usize;
                    self.pos = self.pos - 1;
                    assert(sets[idx as int] == slots_of(buckets@[idx as int]));
                    match &buckets[idx] {
                        Some(bm) => {
                            if !bm.is_empty() {
                                assert(start.skip(1) =~= filled_down(sets, self.pos as int));
                                return Some((idx as u8, bm));
                            }
                        },
                        None => {},
                    }
                }
                None
            },
            SortDirection::Asc => {
                while self.pos <= 255
                    invariant
                        self.wf(),
                        self.direction is Asc,
                        self.sets() == sets,
                        self.buckets == buckets,
                        buckets@.len() == 256,
                        sets == old(self).sets(),
                        start == old(self).ahead(),
                        0 <= self.pos,
                        start == filled_up(sets, self.pos as int),
                    decreases 256 - self.pos,
                {
                    let idx: usize = self.pos as usize;
                    self.pos = self.pos + 1;
                    assert(sets[idx as int] == slots_of(buckets@[idx as int]));
                    match &buckets[idx] {
                        Some(bm) => {
                            if !bm.is_empty() {
                                assert(start.skip(1) =~= filled_up(sets, self.pos as int));
                                return Some((idx as u8, bm));
                            }
                        },
                        None => {},
                    }
                }
                None
            },
        }
    }
}

/// The slots that `entries` put into each bucket.
pub open spec fn entry_sets(entries: Seq<(u32, u32)>) -> Seq<Set<u32>>
    decreases entries.len(),
{
    if entries.len() == 0 {
        Seq::new(256, |i: int| Set::<u32>::empty())
    } else {
        let sets = entry_sets(entries.drop_last());
        let (slot, value) = entries.last();
        sets.update(prefix_of(value), sets[prefix_of(value)].insert(slot))
    }
}

/// Which buckets hold a slot.
pub open spec fn filled(sets: Seq<Set<u32>>) -> Seq<bool> {
    Seq::new(sets.len(), |i: int| sets[i] != Set::<u32>::empty())
}

proof fn lemma_filled_grows(sets: Seq<Set<u32>>, p: int, slot: u32)
    requires
        0 <= p < sets.len(),
    ensures
        filled(sets.update(p, sets[p].insert(slot))) == filled(sets).update(p, true),
{
    let after = sets.update(p, sets[p].insert(slot));
    assert(after[p].contains(slot));
    assert(filled(after) =~= filled(sets).update(p, true));
}

impl RadixSortIndex {
    /// Builds from pairs of slot and sort value.
    pub fn from_entries(entries: &Vec<(u32, u32)>) -> (r: Self)
        requires
            count_all(entry_sets(entries@)) <= u32::MAX,
        ensures
            r.wf(),
            !r.dirty(),
            r.sets() == entry_sets(entries@),
            r.made() == filled(r.sets()),
    {
        let mut index = Self::empty();
        assert(index.made() =~= filled(index.sets()));
        let mut i: usize = 0;
        assert(entries@.take(0) =~= Seq::<(u32, u32)>::empty());
        while i < entries.len()
            invariant
                i <= entries@.len(),
                index.wf(),
                index.sets() == entry_sets(entries@.take(i as int)),
                index.made() == filled(index.sets()),
            decreases entries@.len() - i,
        {
            let ghost before = index;
            assert(entries@.take(i + 1).drop_last() =~= entries@.take(i as int));
            let (slot, value) = entries[i];
            index.insert(slot, value);
            proof {
                lemma_filled_grows(before.sets(), prefix_of(value), slot);
            }
            i = i + 1;
        }
        assert(entries@.take(entries@.len() as int) =~= entries@);
        index.rebuild_counts();
        index
    }

    /// Builds from a bitmap and a function that gives the sort value of a slot.
    pub fn from_bitmap<F: Fn(u32) -> u32>(bitmap: &RoaringBitmap, value_fn: &F) -> (r: Self)
        requires
            bits(*bitmap).len() <= u32::MAX,
            forall|slot: u32| bits(*bitmap).contains(slot) ==> call_requires(*value_fn, (slot,)),
        ensures
            r.wf(),
            !r.dirty(),
            r.made() == filled(r.sets()),
            exists|values: Map<u32, u32>|
                {
                    &&& forall|slot: u32|
                        bits(*bitmap).contains(slot) ==> call_ensures(*value_fn, (slot,), #[trigger] values[slot])
                    &&& #[trigger] placed(r.sets(), bits(*bitmap), values)
                },
    {
        let list = slots(bitmap);
        let mut index = Self::empty();
        let ghost mut values: Map<u32, u32> = Map::empty();
        let ghost mut done: Set<u32> = Set::empty();
        let mut i: usize = 0;
        assert(index.made() =~= filled(index.sets()));
        assert(placed(index.sets(), done, values));
        while i < list.len()
            invariant
                i <= list@.len(),
                forall|a: int, b: int| 0 <= a < b < list@.len() ==> list@[a] < list@[b],
                list@.to_set() == bits(*bitmap),
                forall|slot: u32| bits(*bitmap).contains(slot) ==> call_requires(*value_fn, (slot,)),
                index.wf(),
                done == list@.take(i as int).to_set(),
                placed(index.sets(), done, values),
                index.made() == filled(index.sets()),
                forall|slot: u32| done.contains(slot) ==> call_ensures(*value_fn, (slot,), #[trigger] values[slot]),
            decreases list@.len() - i,
        {
            let slot = list[i];
            assert(list@.to_set().contains(slot));
            let value = value_fn(slot);
            let ghost before = index.sets();
            let ghost taken = list@.take(i as int);
            assert(!done.contains(slot)) by {
                if done.contains(slot) {
                    let k = choose|k: int| 0 <= k < taken.len() && taken[k] == slot;
                    assert(list@[k] < list@[i as int]);
                }
            }
            index.insert(slot, value);
            proof {
                lemma_filled_grows(before, prefix_of(value), slot);
                let old_values = values;
                let old_done = done;
                values = values.insert(slot, value);
                done = done.insert(slot);
                assert(list@.take(i + 1) =~= taken.push(slot));
                assert(done =~= list@.take(i + 1).to_set()) by {
                    assert forall|x: u32| done.contains(x) <==> list@.take(i + 1).to_set().contains(x) by {
                        if taken.contains(x) {
                            let k = choose|k: int| 0 <= k < taken.len() && taken[k] == x;
                            assert(list@.take(i + 1)[k] == x);
                        }
                        if x == slot {
                            assert(list@.take(i + 1)[i as int] == x);
                        }
                    }
                }
                assert(placed(index.sets(), done, values)) by {
                    assert forall|p: int, s: u32| 0 <= p < 256 implies (#[trigger] index.sets()[p].contains(s) <==> (
                    done.contains(s) && prefix_of(values[s]) == p)) by {
                        assert(before[p].contains(s) <==> (old_done.contains(s) && prefix_of(old_values[s]) == p));
                    }
                }
            }
            i = i + 1;
        }
        assert(list@.take(list@.len() as int) =~= list@);
        proof {
            lemma_placed_count(index.sets(), done, values);
        }
        index.rebuild_counts();
        index
    }
}

/// Whether the buckets `sets` hold exactly `all`, each slot in the bucket of its value.
pub open spec fn placed(sets: Seq<Set<u32>>, all: Set<u32>, values: Map<u32, u32>) -> bool {
    &&& sets.len() == 256
    &&& forall|p: int, s: u32|
        0 <= p < 256 ==> (#[trigger] sets[p].contains(s) <==> (all.contains(s) && prefix_of(values[s]) == p))
}

/// Where each slot stands in the bucket of its value, the buckets count each slot once.
pub proof fn lemma_placed_count(sets: Seq<Set<u32>>, all: Set<u32>, values: Map<u32, u32>)
    requires
        placed(sets, all, values),
    ensures
        count_all(sets) == all.len(),
{
    lemma_placed_below(sets, all, values, 256);
    assert(Set::new(|s: u32| all.contains(s) && prefix_of(values[s]) < 256) =~= all);
}

proof fn lemma_placed_below(sets: Seq<Set<u32>>, all: Set<u32>, values: Map<u32, u32>, k: int)
    requires
        placed(sets, all, values),
        0 <= k <= 256,
    ensures
        count_below(sets, k) == Set::new(|s: u32| all.contains(s) && prefix_of(values[s]) < k).len(),
    decreases k,
{
    let upto = Set::new(|s: u32| all.contains(s) && prefix_of(values[s]) < k);
    if k == 0 {
        assert(upto =~= Set::<u32>::empty());
    } else {
        lemma_placed_below(sets, all, values, k - 1);
        let below = Set::new(|s: u32| all.contains(s) && prefix_of(values[s]) < k - 1);
        let own = sets[k - 1];
        assert forall|s: u32| upto.contains(s) <==> below.union(own).contains(s) by {
            assert(own.contains(s) <==> (all.contains(s) && prefix_of(values[s]) == k - 1));
        }
        assert(upto =~= below.union(own));
        assert(below.disjoint(own)) by {
            assert forall|s: u32| !(below.contains(s) && own.contains(s)) by {
                assert(own.contains(s) <==> (all.contains(s) && prefix_of(values[s]) == k - 1));
            }
        }
        lemma_slots_finite(below);
        lemma_slots_finite(own);
        vstd::set_lib::lemma_set_disjoint_lens(below, own);
    }
}

/// Walking up meets the buckets that walking down meets, in the opposite order.
pub proof fn law_walks_mirror_each_other(sets: Seq<Set<u32>>)
    requires
        sets.len() == 256,
    ensures
        walk_order(sets, SortDirection::Asc) == walk_order(sets, SortDirection::Desc).reverse(),
{
    lemma_walk_split(sets, 0);
    assert(filled_down(sets, -1).reverse() + filled_up(sets, 0) =~= filled_up(sets, 0));
}

proof fn lemma_walk_split(sets: Seq<Set<u32>>, k: int)
    requires
        sets.len() == 256,
        0 <= k <= 256,
    ensures
        filled_down(sets, 255).reverse() == filled_down(sets, k - 1).reverse() + filled_up(sets, k),
    decreases 256 - k,
{
    if k < 256 {
        lemma_walk_split(sets, k + 1);
        let down = filled_down(sets, k - 1);
        if sets[k] == Set::<u32>::empty() {
        } else {
            assert((seq![k] + down).reverse() =~= down.reverse() + seq![k]);
            assert(down.reverse() + (seq![k] + filled_up(sets, k + 1)) =~= down.reverse() + seq![k] + filled_up(
                sets,
                k + 1,
            ));
        }
    } else {
        assert(filled_down(sets, 255).reverse() =~= filled_down(sets, k - 1).reverse() + filled_up(sets, k));
    }
}

/// Within a total of `n` slots every page offset has exactly one place: the bucket and the
/// offset in it that the walk from either end gives are determined.
pub proof fn law_offset_place_is_unique(sets: Seq<Set<u32>>, a: int, b: int, in_a: int, in_b: int)
    requires
        0 <= a < sets.len(),
        0 <= b < sets.len(),
        0 <= in_a < sets[a].len(),
        0 <= in_b < sets[b].len(),
        count_below(sets, a) + in_a == count_below(sets, b) + in_b,
    ensures
        a == b,
        in_a == in_b,
{
    if a < b {
        lemma_count_grows(sets, a + 1, b);
    }
    if b < a {
        lemma_count_grows(sets, b + 1, a);
    }
}

/// Removing a slot right after it was inserted into a bucket without it restores the buckets.
pub proof fn law_remove_undoes_insert(sets: Seq<Set<u32>>, slot: u32, value: u32)
    requires
        sets.len() == 256,
        !sets[prefix_of(value)].contains(slot),
    ensures
        ({
            let p = prefix_of(value);
            let inserted = sets.update(p, sets[p].insert(slot));
            inserted.update(p, inserted[p].remove(slot)) == sets
        }),
{
    let p = prefix_of(value);
    let inserted = sets.update(p, sets[p].insert(slot));
    assert(inserted[p].remove(slot) =~= sets[p]);
    assert(inserted.update(p, inserted[p].remove(slot)) =~= sets);
}

/// The bytes that the first `k` of `buckets` take when serialised.
pub open spec fn stored_below(buckets: Seq<Option<RoaringBitmap>>, k: int) -> nat
    decreases k,
{
    if k <= 0 {
        0
    } else {
        stored_below(buckets, k - 1) + match buckets[k - 1] {
            Some(bm) => serialized_len(bm) as nat,
            None => 0,
        }
    }
}

impl RadixSortIndex {
    /// The memory estimate: the bucket table, the two count tables, the serialised bitmaps and
    /// the index itself.
    pub closed spec fn memory(self) -> nat {
        256 * vstd::layout::size_of::<Option<RoaringBitmap>>() + 2 * 256 * 4 + stored_below(self.buckets@, 256)
            + vstd::layout::size_of::<RadixSortIndex>()
    }

    /// Memory usage estimate, `usize::MAX` where it would be more than that.
    pub fn memory_bytes(&self) -> (r: usize)
        requires
            self.wf(),
        ensures
            r == if self.memory() <= usize::MAX { self.memory() as int } else { usize::MAX as int },
    {
        let mut total: u128 = 256u128 * (std::mem::size_of::<Option<RoaringBitmap>>() as u128) + 2048u128 + (
        std::mem::size_of::<RadixSortIndex>() as u128);
        let ghost fixed = total as nat;
        let mut i: usize = 0;
        while i < 256
            invariant
                i <= 256,
                self.wf(),
                fixed <= 0x1000 * 0x1_0000_0000_0000_0000,
                self.memory() == fixed + stored_below(self.buckets@, 256),
                total == fixed + stored_below(self.buckets@, i as int),
                stored_below(self.buckets@, i as int) <= i * 0x1_0000_0000_0000_0000,
            decreases 256 - i,
        {
            match &self.buckets[i] {
                Some(bm) => {
                    total = total + (bm.serialized_size() as u128);
                },
                None => {},
            }
            i = i + 1;
        }
        if total <= usize::MAX as u128 {
            total as usize
        } else {
            usize::MAX
        }
    }
}

/// A bucket holds the values of one stretch: those of bucket `p` start at `p` times two to the power of
/// twenty-four, and end where those of the next start. So smaller values never stand in later buckets.
pub proof fn law_buckets_hold_stretches_of_values(v: u32, w: u32, p: int)
    ensures
        0 <= prefix_of(v) < 256,
        prefix_of(v) == p <==> p * 0x100_0000 <= v < (p + 1) * 0x100_0000,
        v <= w ==> prefix_of(v) <= prefix_of(w),
{
}

/// A walk up meets each bucket that holds a slot once, and no other, from the lowest to the highest.
pub proof fn law_walks_meet_every_filled_bucket(sets: Seq<Set<u32>>)
    requires
        sets.len() == 256,
    ensures
        ({
            let up = walk_order(sets, SortDirection::Asc);
            &&& forall|i: int, j: int| 0 <= i < j < up.len() ==> up[i] < up[j]
            &&& forall|i: int| 0 <= i < up.len() ==> 0 <= #[trigger] up[i] < 256 && sets[up[i]] != Set::<u32>::empty()
            &&& forall|p: int, slot: u32| 0 <= p < 256 && #[trigger] sets[p].contains(slot) ==> up.contains(p)
            &&& up.len() == filled_below(sets, 256)
        }),
{
    lemma_filled_up(sets, 0);
    let up = filled_up(sets, 0);
    assert forall|p: int, slot: u32| 0 <= p < 256 && #[trigger] sets[p].contains(slot) implies up.contains(p) by {
        assert(sets[p] != Set::<u32>::empty());
    }
}

proof fn lemma_filled_up(sets: Seq<Set<u32>>, k: int)
    requires
        sets.len() == 256,
        0 <= k <= 256,
    ensures
        ({
            let up = filled_up(sets, k);
            &&& forall|i: int, j: int| 0 <= i < j < up.len() ==> up[i] < up[j]
            &&& forall|i: int| 0 <= i < up.len() ==> k <= #[trigger] up[i] < 256 && sets[up[i]] != Set::<u32>::empty()
            &&& forall|p: int| k <= p < 256 && #[trigger] sets[p] != Set::<u32>::empty() ==> up.contains(p)
            &&& up.len() + filled_below(sets, k) == filled_below(sets, 256)
        }),
    decreases 256 - k,
{
    if k < 256 {
        lemma_filled_up(sets, k + 1);
        let rest = filled_up(sets, k + 1);
        let up = filled_up(sets, k);
        if sets[k] != Set::<u32>::empty() {
            assert(up == seq![k] + rest);
            assert(up[0] == k);
            assert forall|p: int| k <= p < 256 && #[trigger] sets[p] != Set::<u32>::empty() implies up.contains(p) by {
                if p > k {
                    let i = choose|i: int| 0 <= i < rest.len() && rest[i] == p;
                    assert(up[i + 1] == p);
                }
            }
        }
    }
}

/// A slot is looked for from the lowest bucket on: the first that holds it is found, and none only where
/// no bucket does.
pub proof fn law_the_lowest_holder_is_found(sets: Seq<Set<u32>>, slot: u32)
    ensures
        match first_holder(sets, slot, 0) {
            Some(p) => {
                &&& 0 <= p < sets.len()
                &&& sets[p].contains(slot)
                &&& forall|j: int| 0 <= j < p ==> !(#[trigger] sets[j]).contains(slot)
            },
            None => forall|j: int| 0 <= j < sets.len() ==> !(#[trigger] sets[j]).contains(slot),
        },
{
    lemma_first_holder(sets, slot, 0);
}

proof fn lemma_first_holder(sets: Seq<Set<u32>>, slot: u32, k: int)
    requires
        0 <= k,
        forall|j: int| 0 <= j < k && j < sets.len() ==> !(#[trigger] sets[j]).contains(slot),
    ensures
        match first_holder(sets, slot, k) {
            Some(p) => {
                &&& 0 <= p < sets.len()
                &&& sets[p].contains(slot)
                &&& forall|j: int| 0 <= j < p ==> !(#[trigger] sets[j]).contains(slot)
            },
            None => forall|j: int| 0 <= j < sets.len() ==> !(#[trigger] sets[j]).contains(slot),
        },
    decreases sets.len() - k,
{
    if k < sets.len() && !sets[k].contains(slot) {
        lemma_first_holder(sets, slot, k + 1);
    }
}

/// A slot stands in a bucket where some entry puts it with a value of that bucket, and nowhere else.
pub proof fn law_entries_stand_in_the_bucket_of_their_value(entries: Seq<(u32, u32)>, p: int, slot: u32)
    requires
        0 <= p < 256,
    ensures
        entry_sets(entries).len() == 256,
        entry_sets(entries)[p].contains(slot) <==> exists|i: int|
            0 <= i < entries.len() && (#[trigger] entries[i]).0 == slot && p * 0x100_0000 <= entries[i].1 < (p + 1)
                * 0x100_0000,
    decreases entries.len(),
{
    if entries.len() > 0 {
        let before = entries.drop_last();
        law_entries_stand_in_the_bucket_of_their_value(before, p, slot);
        let (s, v) = entries.last();
        law_entries_stand_in_the_bucket_of_their_value(before, prefix_of(v), slot);
        law_buckets_hold_stretches_of_values(v, v, p);
        let n = entries.len() - 1;
        if entry_sets(entries)[p].contains(slot) {
            if entry_sets(before)[p].contains(slot) {
                let i = choose|i: int|
                    0 <= i < before.len() && (#[trigger] before[i]).0 == slot && p * 0x100_0000 <= before[i].1 < (p
                        + 1) * 0x100_0000;
                assert(entries[i] == before[i]);
            } else {
                assert(entries[n].0 == slot);
            }
        }
        if exists|i: int|
            0 <= i < entries.len() && (#[trigger] entries[i]).0 == slot && p * 0x100_0000 <= entries[i].1 < (p + 1)
                * 0x100_0000 {
            let i = choose|i: int|
                0 <= i < entries.len() && (#[trigger] entries[i]).0 == slot && p * 0x100_0000 <= entries[i].1 < (p
                    + 1) * 0x100_0000;
            if i < n {
                assert(before[i] == entries[i]);
            }
        }
    }
}

/// The counts below a bucket and from it on grow by what the bucket holds, from nothing before the first
/// and behind the last.
pub proof fn law_counts_grow_by_the_bucket(sets: Seq<Set<u32>>, k: int)
    requires
        0 <= k < sets.len(),
    ensures
        count_below(sets, 0) == 0,
        count_from(sets, sets.len() as int) == 0,
        count_below(sets, k + 1) == count_below(sets, k) + sets[k].len(),
        count_from(sets, k) == count_from(sets, k + 1) + sets[k].len(),
        count_all(sets) == count_below(sets, k) + sets[k].len() + count_from(sets, k + 1),
{
    lemma_counts(sets, k);
}

/// Each bucket with a bitmap takes what its bitmap takes when it is serialised, and one without takes
/// nothing.
pub proof fn law_stored_bitmaps_add_up(buckets: Seq<Option<RoaringBitmap>>, bm: RoaringBitmap)
    ensures
        stored_below(buckets, 0) == 0,
        stored_below(buckets.push(None), buckets.len() as int + 1) == stored_below(buckets, buckets.len() as int),
        stored_below(buckets.push(Some(bm)), buckets.len() as int + 1) == stored_below(buckets, buckets.len() as int)
            + serialized_len(bm),
{
    lemma_stored_prefix(buckets, None, buckets.len() as int);
    lemma_stored_prefix(buckets, Some(bm), buckets.len() as int);
}

proof fn lemma_stored_prefix(buckets: Seq<Option<RoaringBitmap>>, b: Option<RoaringBitmap>, k: int)
    requires
        0 <= k <= buckets.len(),
    ensures
        stored_below(buckets.push(b), k) == stored_below(buckets, k),
    decreases k,
{
    if k > 0 {
        lemma_stored_prefix(buckets, b, k - 1);
    }
}

/// An index whose buckets have no bitmap takes its three tables of 256 places and itself; one with bitmaps
/// takes more than that by what they take.
pub proof fn law_memory_is_of_tables_and_bitmaps(index: RadixSortIndex)
    requires
        index.wf(),
    ensures
        ({
            let tables = 256 * vstd::layout::size_of::<Option<RoaringBitmap>>() + 256 * 4 + 256 * 4;
            let fixed = tables + vstd::layout::size_of::<RadixSortIndex>();
            &&& index.memory() >= fixed
            &&& (forall|p: int| 0 <= p < 256 ==> !#[trigger] index.made()[p]) ==> index.memory() == fixed
        }),
{
    if forall|p: int| 0 <= p < 256 ==> !#[trigger] index.made()[p] {
        assert forall|p: int| 0 <= p < 256 implies #[trigger] index.buckets@[p] is None by {
            assert(!index.made()[p]);
        }
        lemma_nothing_stored(index.buckets@, 256);
    }
}

proof fn lemma_nothing_stored(buckets: Seq<Option<RoaringBitmap>>, k: int)
    requires
        k <= buckets.len(),
        forall|p: int| 0 <= p < buckets.len() ==> #[trigger] buckets[p] is None,
    ensures
        stored_below(buckets, k) == 0,
    decreases k,
{
    if k > 0 {
        assert(buckets[k - 1] is None);
        lemma_nothing_stored(buckets, k - 1);
    }
}

} // verus!
