//! Roaring bitmaps as sets of slots.

use roaring::RoaringBitmap;
use std::sync::Arc;
use vstd::prelude::*;

verus! {

/// A compressed set of slots.
#[verifier::external_type_specification]
#[verifier::external_body]
pub struct ExRoaringBitmap(roaring::RoaringBitmap);

/// The slots that a bitmap holds.
pub uninterp spec fn bits(b: RoaringBitmap) -> Set<u32>;

/// How many bytes the serialised form of a bitmap takes.
pub uninterp spec fn serialized_len(b: RoaringBitmap) -> usize;

/// `RoaringBitmap::new` makes an empty bitmap.
pub assume_specification[ roaring::RoaringBitmap::new ]() -> (r: roaring::RoaringBitmap)
    ensures
        bits(r) == Set::<u32>::empty(),
;

/// `RoaringBitmap::insert` adds the value and says whether it was absent.
pub assume_specification[ roaring::RoaringBitmap::insert ](b: &mut roaring::RoaringBitmap, value: u32) -> (r: bool)
    ensures
        bits(*final(b)) == bits(*old(b)).insert(value),
        r == !bits(*old(b)).contains(value),
;

/// `RoaringBitmap::remove` takes the value out and says whether it was present.
pub assume_specification[ roaring::RoaringBitmap::remove ](b: &mut roaring::RoaringBitmap, value: u32) -> (r: bool)
    ensures
        bits(*final(b)) == bits(*old(b)).remove(value),
        r == bits(*old(b)).contains(value),
;

/// `RoaringBitmap::contains` says whether the value is present.
pub assume_specification[ roaring::RoaringBitmap::contains ](b: &roaring::RoaringBitmap, value: u32) -> (r: bool)
    ensures
        r == bits(*b).contains(value),
;

/// `RoaringBitmap::len` is the number of values.
pub assume_specification[ roaring::RoaringBitmap::len ](b: &roaring::RoaringBitmap) -> (r: u64)
    ensures
        r == bits(*b).len(),
        r <= 0x1_0000_0000,
;

/// `RoaringBitmap::is_empty` says whether there is no value.
pub assume_specification[ roaring::RoaringBitmap::is_empty ](b: &roaring::RoaringBitmap) -> (r: bool)
    ensures
        r == (bits(*b) == Set::<u32>::empty()),
;

/// `RoaringBitmap::is_subset` says whether every value is also in the other bitmap.
pub assume_specification[ roaring::RoaringBitmap::is_subset ](
    b: &roaring::RoaringBitmap,
    other: &roaring::RoaringBitmap,
) -> (r: bool)
    ensures
        r == bits(*b).subset_of(bits(*other)),
;

/// `RoaringBitmap::serialized_size` is the length of the serialised form.
pub assume_specification[ roaring::RoaringBitmap::serialized_size ](b: &roaring::RoaringBitmap) -> (r: usize)
    ensures
        r == serialized_len(*b),
;

/// `<RoaringBitmap as Clone>::clone` makes a bitmap of the same values.
pub assume_specification[ <roaring::RoaringBitmap as Clone>::clone ](b: &roaring::RoaringBitmap) -> (r:
    roaring::RoaringBitmap)
    ensures
        bits(r) == bits(*b),
;

/// `<&RoaringBitmap as BitAnd<&RoaringBitmap>>::bitand` is the intersection.
#[verifier::external_body]
pub(crate) fn intersection(a: &RoaringBitmap, b: &RoaringBitmap) -> (r: RoaringBitmap)
    ensures
        bits(r) == bits(*a).intersect(bits(*b)),
{
    a & b
}

/// `RoaringBitmap::iter` gives the values in ascending order, each once.
#[verifier::external_body]
pub(crate) fn slots(b: &RoaringBitmap) -> (r: Vec<u32>)
    ensures
        forall|i: int, j: int| 0 <= i < j < r@.len() ==> r@[i] < r@[j],
        r@.to_set() == bits(*b),
{
    b.iter().collect()
}

/// A set of slots is finite.
pub proof fn lemma_slots_finite(s: Set<u32>)
    ensures
        s.finite(),
{
    let range = vstd::set_lib::set_int_range(0, 0x1_0000_0000);
    let f = |i: int| i as u32;
    vstd::set_lib::lemma_int_range(0, 0x1_0000_0000);
    range.lemma_map_finite(f);
    assert forall|x: u32| s.contains(x) implies range.map(f).contains(x) by {
        assert(range.contains(x as int) && f(x as int) == x);
    }
    vstd::set_lib::lemma_set_subset_finite(range.map(f), s);
}

/// Whether two bitmaps hold the same slots.
pub fn same_slots(a: &RoaringBitmap, b: &RoaringBitmap) -> (r: bool)
    ensures
        r == (bits(*a) == bits(*b)),
{
    let r = a.is_subset(b) && b.is_subset(a);
    assert(r ==> bits(*a) =~= bits(*b));
    r
}

/// A second handle on the bitmap.
pub fn share(b: &Arc<RoaringBitmap>) -> (r: Arc<RoaringBitmap>)
    ensures
        r == *b,
{
    b.clone()
}

} // verus!
