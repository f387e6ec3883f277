//! Time buckets: precomputed bitmaps of the slots of the last so many seconds.

use crate::bitmap::bits;
use crate::text::text_eq;
use roaring::RoaringBitmap;
use std::sync::Arc;
use vstd::prelude::*;

verus! {

/// A named window with the slots that lie in it.
pub struct TimeBucket {
    pub name: String,
    pub duration_secs: u64,
    pub bitmap: Arc<RoaringBitmap>,
}

/// A bucket as a mathematical value.
pub struct BucketView {
    pub name: Seq<char>,
    pub duration: int,
    pub slots: Set<u32>,
}

impl View for TimeBucket {
    type V = BucketView;

    open spec fn view(&self) -> BucketView {
        BucketView { name: self.name@, duration: self.duration_secs as int, slots: bits(*self.bitmap) }
    }
}

/// The time buckets of one field.
pub struct TimeBucketManager {
    pub field: String,
    pub buckets: Vec<TimeBucket>,
}

/// The buckets as mathematical values.
pub open spec fn bucket_views(buckets: Seq<TimeBucket>) -> Seq<BucketView> {
    Seq::new(buckets.len(), |i: int| buckets[i]@)
}

/// The distance between two durations.
pub open spec fn distance(a: int, b: int) -> int {
    if a <= b { b - a } else { a - b }
}

/// Whether `duration` is within the tolerance of the bucket duration `bucket`. The tolerance
/// is a fraction of the bucket, in millionths.
pub open spec fn within_tolerance(duration: int, bucket: int, tolerance_ppm: int) -> bool {
    distance(duration, bucket) * 1_000_000 <= bucket * tolerance_ppm
}

/// The nearest of the first `n` buckets among those within tolerance, the first of them
/// where several are as near.
pub open spec fn nearest_within(b: Seq<BucketView>, duration: int, tolerance_ppm: int, n: int) -> Option<int>
    decreases n,
{
    if n <= 0 {
        None
    } else {
        let best = nearest_within(b, duration, tolerance_ppm, n - 1);
        if within_tolerance(duration, b[n - 1].duration, tolerance_ppm) && (best is None || distance(
            duration,
            b[n - 1].duration,
        ) < distance(duration, b[best->0].duration)) {
            Some(n - 1)
        } else {
            best
        }
    }
}

/// The shortest of the first `n` buckets among those that cover `duration`.
pub open spec fn shortest_covering(b: Seq<BucketView>, duration: int, n: int) -> Option<int>
    decreases n,
{
    if n <= 0 {
        None
    } else {
        let best = shortest_covering(b, duration, n - 1);
        if b[n - 1].duration >= duration && (best is None || b[n - 1].duration < b[best->0].duration) {
            Some(n - 1)
        } else {
            best
        }
    }
}

/// The longest of the first `n` buckets.
pub open spec fn longest(b: Seq<BucketView>, n: int) -> Option<int>
    decreases n,
{
    if n <= 0 {
        None
    } else {
        let best = longest(b, n - 1);
        if best is None || b[n - 1].duration > b[best->0].duration {
            Some(n - 1)
        } else {
            best
        }
    }
}

/// The bucket that stands in for `duration` whatever the tolerance: the shortest that covers
/// it, else the longest there is.
pub open spec fn nearest_bucket(b: Seq<BucketView>, duration: int) -> Option<int> {
    match shortest_covering(b, duration, b.len() as int) {
        Some(i) => Some(i),
        None => longest(b, b.len() as int),
    }
}

impl TimeBucketManager {
    /// The buckets as mathematical values.
    pub open spec fn list(self) -> Seq<BucketView> {
        bucket_views(self.buckets@)
    }

    /// The nearest bucket within tolerance of `duration`, as its position.
    pub fn snap_duration(&self, duration: u64, tolerance_ppm: u64) -> (r: Option<usize>)
        ensures
            match r {
                Some(i) => i < self.buckets@.len() && nearest_within(
                    self.list(),
                    duration as int,
                    tolerance_ppm as int,
                    self.list().len() as int,
                ) == Some(i as int),
                None => nearest_within(
                    self.list(),
                    duration as int,
                    tolerance_ppm as int,
                    self.list().len() as int,
                ) is None,
            },
    {
        let mut best: Option<usize> = None;
        let mut i: usize = 0;
        while i < self.buckets.len()
            invariant
                i <= self.buckets@.len(),
                match best {
                    Some(k) => k < i && nearest_within(
                        self.list(),
                        duration as int,
                        tolerance_ppm as int,
                        i as int,
                    ) == Some(k as int),
                    None => nearest_within(self.list(), duration as int, tolerance_ppm as int, i as int) is None,
                },
            decreases self.buckets@.len() - i,
        {
            let bucket: u64 = self.buckets[i].duration_secs;
            assert(self.list()[i as int].duration == bucket);
            let d: u64 = if duration <= bucket { bucket - duration } else { duration - bucket };
            assert(d as u128 * 1_000_000u128 <= u128::MAX) by (nonlinear_arith);
            assert(bucket as u128 * tolerance_ppm as u128 <= u128::MAX) by (nonlinear_arith);
            if (d as u128) * 1_000_000u128 <= (bucket as u128) * (tolerance_ppm as u128) {
                let closer = match best {
                    Some(k) => {
                        let other: u64 = self.buckets[k].duration_secs;
                        assert(self.list()[k as int].duration == other);
                        let e: u64 = if duration <= other { other - duration } else { duration - other };
                        d < e
                    },
                    None => true,
                };
                if closer {
                    best = Some(i);
                }
            }
            i = i + 1;
        }
        best
    }

    /// The bucket that stands in for `duration` whatever the tolerance, as its position.
    pub fn snap_nearest(&self, duration: u64) -> (r: Option<usize>)
        ensures
            match r {
                Some(i) => i < self.buckets@.len() && nearest_bucket(self.list(), duration as int) == Some(i as int),
                None => nearest_bucket(self.list(), duration as int) is None,
            },
    {
        let mut cover: Option<usize> = None;
        let mut long: Option<usize> = None;
        let mut i: usize = 0;
        while i < self.buckets.len()
            invariant
                i <= self.buckets@.len(),
                match cover {
                    Some(k) => k < i && shortest_covering(self.list(), duration as int, i as int) == Some(k as int),
                    None => shortest_covering(self.list(), duration as int, i as int) is None,
                },
                match long {
                    Some(k) => k < i && longest(self.list(), i as int) == Some(k as int),
                    None => longest(self.list(), i as int) is None,
                },
            decreases self.buckets@.len() - i,
        {
            let bucket: u64 = self.buckets[i].duration_secs;
            assert(self.list()[i as int].duration == bucket);
            if bucket >= duration {
                let shorter = match cover {
                    Some(k) => {
                        assert(self.list()[k as int].duration == self.buckets@[k as int].duration_secs);
                        bucket < self.buckets[k].duration_secs
                    },
                    None => true,
                };
                if shorter {
                    cover = Some(i);
                }
            }
            let longer = match long {
                Some(k) => {
                    assert(self.list()[k as int].duration == self.buckets@[k as int].duration_secs);
                    bucket > self.buckets[k].duration_secs
                },
                None => true,
            };
            if longer {
                long = Some(i);
            }
            i = i + 1;
        }
        match cover {
            Some(k) => Some(k),
            None => long,
        }
    }
}

/// The first of the first `n` managers, counted from the front, that is for `field`.
pub open spec fn manager_position(managers: Seq<TimeBucketManager>, field: Seq<char>, n: int) -> Option<int>
    decreases managers.len() - n,
{
    if n >= managers.len() {
        None
    } else if managers[n].field@ == field {
        Some(n)
    } else {
        manager_position(managers, field, n + 1)
    }
}

/// The manager of `field`, as its position.
pub fn find_manager(managers: &Vec<TimeBucketManager>, field: &str) -> (r: Option<usize>)
    ensures
        match r {
            Some(i) => i < managers@.len() && manager_position(managers@, field@, 0) == Some(i as int),
            None => manager_position(managers@, field@, 0) is None,
        },
{
    let mut i: usize = 0;
    while i < managers.len()
        invariant
            i <= managers@.len(),
            manager_position(managers@, field@, 0) == manager_position(managers@, field@, i as int),
        decreases managers@.len() - i,
    {
        if text_eq(managers[i].field.as_str(), field) {
            return Some(i);
        }
        i = i + 1;
    }
    None
}

/// How far apart two durations are, whichever is longer.
pub open spec fn apart(a: int, b: int) -> int {
    if a - b >= 0 { a - b } else { b - a }
}

/// What comes out within tolerance is a bucket that misses the window by no more than the given part
/// of itself, and none that misses it as little is nearer; nothing comes out only where every bucket
/// misses the window by more.
pub proof fn law_the_nearest_within_tolerance_is_taken(b: Seq<BucketView>, duration: int, tolerance_ppm: int, n: int)
    requires
        0 <= n <= b.len(),
    ensures
        match nearest_within(b, duration, tolerance_ppm, n) {
            Some(i) => {
                &&& 0 <= i < n
                &&& apart(b[i].duration, duration) * 1_000_000 <= b[i].duration * tolerance_ppm
                &&& forall|j: int|
                    0 <= j < n && apart((#[trigger] b[j]).duration, duration) * 1_000_000 <= b[j].duration
                        * tolerance_ppm ==> apart(b[i].duration, duration) <= apart(b[j].duration, duration) && (j < i
                        ==> apart(b[i].duration, duration) < apart(b[j].duration, duration))
            },
            None => forall|j: int|
                0 <= j < n ==> apart((#[trigger] b[j]).duration, duration) * 1_000_000 > b[j].duration
                    * tolerance_ppm,
        },
    decreases n,
{
    if n > 0 {
        law_the_nearest_within_tolerance_is_taken(b, duration, tolerance_ppm, n - 1);
        assert(distance(duration, b[n - 1].duration) == apart(b[n - 1].duration, duration));
        if let Some(i) = nearest_within(b, duration, tolerance_ppm, n - 1) {
            assert(distance(duration, b[i].duration) == apart(b[i].duration, duration));
        }
    }
}

/// The bucket that stands in for a window covers it, and no bucket that covers it is shorter; only
/// where none covers it is it the longest there is. There is one wherever there are buckets.
pub proof fn law_windows_are_covered_where_they_can_be(b: Seq<BucketView>, duration: int)
    ensures
        b.len() > 0 <==> nearest_bucket(b, duration) is Some,
        nearest_bucket(b, duration) matches Some(i) ==> {
            &&& 0 <= i < b.len()
            &&& (exists|j: int| 0 <= j < b.len() && (#[trigger] b[j]).duration >= duration) ==> b[i].duration
                >= duration
            &&& forall|j: int| 0 <= j < b.len() && (#[trigger] b[j]).duration >= duration ==> b[i].duration
                <= b[j].duration
            &&& b[i].duration < duration ==> forall|j: int|
                0 <= j < b.len() ==> (#[trigger] b[j]).duration <= b[i].duration
        },
{
    lemma_shortest_covering(b, duration, b.len() as int);
    lemma_longest(b, b.len() as int);
}

proof fn lemma_shortest_covering(b: Seq<BucketView>, duration: int, n: int)
    requires
        0 <= n <= b.len(),
    ensures
        match shortest_covering(b, duration, n) {
            Some(i) => {
                &&& 0 <= i < n
                &&& b[i].duration >= duration
                &&& forall|j: int| 0 <= j < n && (#[trigger] b[j]).duration >= duration ==> b[i].duration
                    <= b[j].duration
            },
            None => forall|j: int| 0 <= j < n ==> (#[trigger] b[j]).duration < duration,
        },
    decreases n,
{
    if n > 0 {
        lemma_shortest_covering(b, duration, n - 1);
    }
}

proof fn lemma_longest(b: Seq<BucketView>, n: int)
    requires
        0 <= n <= b.len(),
    ensures
        match longest(b, n) {
            Some(i) => 0 <= i < n && forall|j: int| 0 <= j < n ==> (#[trigger] b[j]).duration <= b[i].duration,
            None => n == 0,
        },
    decreases n,
{
    if n > 0 {
        lemma_longest(b, n - 1);
    }
}

/// The buckets of a field are those of the first manager that is for it.
pub proof fn law_fields_have_their_own_manager(managers: Seq<TimeBucketManager>, field: Seq<char>, p: int, n: int)
    requires
        0 <= n <= p < managers.len(),
        managers[p].field@ == field,
        forall|q: int| 0 <= q < p ==> (#[trigger] managers[q]).field@ != field,
    ensures
        manager_position(managers, field, n) == Some(p),
    decreases p - n,
{
    if n < p {
        assert(managers[n].field@ != field);
        law_fields_have_their_own_manager(managers, field, p, n + 1);
    }
}

/// A field that no manager is for has no buckets.
pub proof fn law_other_fields_have_no_manager(managers: Seq<TimeBucketManager>, field: Seq<char>, n: int)
    requires
        0 <= n,
        forall|q: int| 0 <= q < managers.len() ==> (#[trigger] managers[q]).field@ != field,
    ensures
        manager_position(managers, field, n) is None,
    decreases managers.len() - n,
{
    if n < managers.len() {
        assert(managers[n].field@ != field);
        law_other_fields_have_no_manager(managers, field, n + 1);
    }
}

} // verus!
