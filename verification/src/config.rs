//! The configuration of an index, as far as the library reads or changes it.

use vstd::prelude::*;

verus! {

/// A double-precision number, by its bits.
#[derive(Debug, Clone, Copy, PartialEq, Eq, Structural)]
pub struct Double {
    pub bits: u64,
}

/// The bits of one.
pub const ONE_BITS: u64 = 0x3ff0_0000_0000_0000;

/// The bits of infinity.
pub const INFINITY_BITS: u64 = 0x7ff0_0000_0000_0000;

/// The sign bit.
pub const SIGN_BIT: u64 = 0x8000_0000_0000_0000;

impl Double {
    /// The bits without the sign.
    pub open spec fn magnitude(self) -> int {
        self.bits as int % 0x8000_0000_0000_0000
    }

    /// Whether this is no number.
    pub open spec fn nan(self) -> bool {
        self.magnitude() > INFINITY_BITS
    }

    /// Whether this is less than zero.
    pub open spec fn below_zero(self) -> bool {
        self.bits >= SIGN_BIT && self.magnitude() != 0 && !self.nan()
    }

    /// Whether this is greater than one.
    pub open spec fn above_one(self) -> bool {
        self.bits < SIGN_BIT && self.magnitude() > ONE_BITS && !self.nan()
    }

    /// Whether this is zero, with either sign.
    pub open spec fn zero(self) -> bool {
        self.magnitude() == 0
    }

    /// Whether this is at most zero, or greater than one.
    pub fn outside_unit(&self) -> (r: bool)
        ensures
            r == (self.below_zero() || self.zero() || self.above_one()),
    {
        let magnitude: u64 = self.bits % SIGN_BIT;
        magnitude == 0 || (magnitude <= INFINITY_BITS && (self.bits >= SIGN_BIT || magnitude > ONE_BITS))
    }

    /// Whether this is from zero to one, both ends included.
    pub fn within_closed_unit(&self) -> (r: bool)
        ensures
            r == (!self.nan() && !self.below_zero() && !self.above_one()),
    {
        let magnitude: u64 = self.bits % SIGN_BIT;
        magnitude == 0 || (self.bits < SIGN_BIT && magnitude <= ONE_BITS)
    }
}

/// The configuration of the cache.
#[derive(Debug, Clone, Copy, PartialEq, Eq, Structural)]
pub struct CacheConfig {
    pub max_entries: usize,
    pub max_bytes: usize,
    pub initial_capacity: usize,
    pub max_capacity: usize,
    pub min_filter_size: usize,
    pub decay_rate: Double,
    pub bound_target_size: usize,
    pub bound_max_size: usize,
    pub bound_max_count: usize,
    pub prefetch_threshold: Double,
    pub preload_bounds: bool,
    pub max_maintenance_work: usize,
    pub max_maintenance_ms: u64,
    pub async_maintenance: bool,
    pub compound_eval_atom_limit: u32,
    pub bucket_entry_ttl_secs: u64,
}

/// A field that can be filtered by.
#[derive(Debug, Clone)]
pub struct FilterFieldConfig {
    pub name: String,
    pub multi_value: bool,
    pub eager_load: bool,
}

/// A field that can be sorted by.
#[derive(Debug, Clone)]
pub struct SortFieldConfig {
    pub name: String,
    pub eager_load: bool,
}

/// A bucket of recent records.
#[derive(Debug, Clone)]
pub struct RangeBucketConfig {
    pub name: String,
    pub refresh_interval_secs: u64,
}

/// The configuration of an index.
#[derive(Debug, Clone)]
pub struct Config {
    pub flush_interval_us: u64,
    pub merge_interval_ms: u64,
    pub channel_capacity: usize,
    pub compact_threshold_pct: u64,
    pub eviction_sweep_interval: u64,
    pub max_page_size: usize,
    pub cache: CacheConfig,
    pub filter_fields: Vec<FilterFieldConfig>,
    pub sort_fields: Vec<SortFieldConfig>,
    /// The buckets of recent records, where there are any.
    pub range_buckets: Option<Vec<RangeBucketConfig>>,
    pub max_registered_prefilters: usize,
    pub disabled_metrics: Option<Vec<String>>,
    pub enabled_metrics: Option<Vec<String>>,
}

/// The position of a filter field, from position `n` on.
pub open spec fn filter_position(fields: Seq<FilterFieldConfig>, name: Seq<char>, n: int) -> Option<int>
    decreases fields.len() - n,
{
    if n >= fields.len() {
        None
    } else if fields[n].name@ == name {
        Some(n)
    } else {
        filter_position(fields, name, n + 1)
    }
}

/// The position of a sort field, from position `n` on.
pub open spec fn sort_position(fields: Seq<SortFieldConfig>, name: Seq<char>, n: int) -> Option<int>
    decreases fields.len() - n,
{
    if n >= fields.len() {
        None
    } else if fields[n].name@ == name {
        Some(n)
    } else {
        sort_position(fields, name, n + 1)
    }
}

/// Looks for a filter field.
pub fn find_filter(fields: &Vec<FilterFieldConfig>, name: &str) -> (r: Option<usize>)
    ensures
        match r {
            Some(i) => i < fields@.len() && filter_position(fields@, name@, 0) == Some(i as int),
            None => filter_position(fields@, name@, 0) is None,
        },
{
    let mut i: usize = 0;
    while i < fields.len()
        invariant
            i <= fields@.len(),
            filter_position(fields@, name@, 0) == filter_position(fields@, name@, i as int),
        decreases fields@.len() - i,
    {
        if crate::text::text_eq(fields[i].name.as_str(), name) {
            return Some(i);
        }
        i = i + 1;
    }
    None
}

/// Looks for a sort field.
pub fn find_sort(fields: &Vec<SortFieldConfig>, name: &str) -> (r: Option<usize>)
    ensures
        match r {
            Some(i) => i < fields@.len() && sort_position(fields@, name@, 0) == Some(i as int),
            None => sort_position(fields@, name@, 0) is None,
        },
{
    let mut i: usize = 0;
    while i < fields.len()
        invariant
            i <= fields@.len(),
            sort_position(fields@, name@, 0) == sort_position(fields@, name@, i as int),
        decreases fields@.len() - i,
    {
        if crate::text::text_eq(fields[i].name.as_str(), name) {
            return Some(i);
        }
        i = i + 1;
    }
    None
}

/// A double is no number beyond infinity on either side. Any other is less than zero, zero, greater than one
/// or in between, and never two of these: its bits grow with its size.
pub proof fn law_doubles_lie_on_one_side(d: Double)
    ensures
        d.zero() <==> d.bits == 0 || d.bits == 0x8000_0000_0000_0000,
        d.below_zero() <==> 0x8000_0000_0000_0000 < d.bits <= 0xfff0_0000_0000_0000,
        d.above_one() <==> 0x3ff0_0000_0000_0000 < d.bits <= 0x7ff0_0000_0000_0000,
        d.nan() <==> 0x7ff0_0000_0000_0000 < d.bits < 0x8000_0000_0000_0000 || 0xfff0_0000_0000_0000 < d.bits,
{
}

/// A name stands for the first filter field that has it, and for none where no field has it.
pub proof fn law_filters_are_found_by_name(fields: Seq<FilterFieldConfig>, name: Seq<char>)
    ensures
        match filter_position(fields, name, 0) {
            Some(i) => {
                &&& 0 <= i < fields.len()
                &&& fields[i].name@ == name
                &&& forall|j: int| 0 <= j < i ==> (#[trigger] fields[j]).name@ != name
            },
            None => forall|j: int| 0 <= j < fields.len() ==> (#[trigger] fields[j]).name@ != name,
        },
{
    lemma_filter_found(fields, name, 0);
}

proof fn lemma_filter_found(fields: Seq<FilterFieldConfig>, name: Seq<char>, n: int)
    requires
        0 <= n,
        forall|j: int| 0 <= j < n && j < fields.len() ==> (#[trigger] fields[j]).name@ != name,
    ensures
        match filter_position(fields, name, n) {
            Some(i) => {
                &&& 0 <= i < fields.len()
                &&& fields[i].name@ == name
                &&& forall|j: int| 0 <= j < i ==> (#[trigger] fields[j]).name@ != name
            },
            None => forall|j: int| 0 <= j < fields.len() ==> (#[trigger] fields[j]).name@ != name,
        },
    decreases fields.len() - n,
{
    if n < fields.len() && fields[n].name@ != name {
        lemma_filter_found(fields, name, n + 1);
    }
}

/// A name stands for the first sort field that has it, and for none where no field has it.
pub proof fn law_sorts_are_found_by_name(fields: Seq<SortFieldConfig>, name: Seq<char>)
    ensures
        match sort_position(fields, name, 0) {
            Some(i) => {
                &&& 0 <= i < fields.len()
                &&& fields[i].name@ == name
                &&& forall|j: int| 0 <= j < i ==> (#[trigger] fields[j]).name@ != name
            },
            None => forall|j: int| 0 <= j < fields.len() ==> (#[trigger] fields[j]).name@ != name,
        },
{
    lemma_sort_found(fields, name, 0);
}

proof fn lemma_sort_found(fields: Seq<SortFieldConfig>, name: Seq<char>, n: int)
    requires
        0 <= n,
        forall|j: int| 0 <= j < n && j < fields.len() ==> (#[trigger] fields[j]).name@ != name,
    ensures
        match sort_position(fields, name, n) {
            Some(i) => {
                &&& 0 <= i < fields.len()
                &&& fields[i].name@ == name
                &&& forall|j: int| 0 <= j < i ==> (#[trigger] fields[j]).name@ != name
            },
            None => forall|j: int| 0 <= j < fields.len() ==> (#[trigger] fields[j]).name@ != name,
        },
    decreases fields.len() - n,
{
    if n < fields.len() && fields[n].name@ != name {
        lemma_sort_found(fields, name, n + 1);
    }
}

} // verus!
