use bitdex::query::SortDirection;
use bitdex::radix_sort::RadixSortIndex;
use roaring::RoaringBitmap;

fn make_entries(values: &[(u32, u32)]) -> Vec<(u32, u32)> {
    values.to_vec()
}

fn three_buckets() -> Vec<(u32, u32)> {
    make_entries(&[
        (0, 0xFF00_0000),
        (1, 0xFF10_0000),
        (2, 0xFF20_0000),
        (3, 0x8000_0000),
        (4, 0x80FF_FFFF),
        (5, 0x0000_0000),
    ])
}

fn prefixes(index: &RadixSortIndex, direction: SortDirection) -> Vec<u8> {
    let mut iter = index.iter_buckets(direction);
    let mut found = Vec::new();
    while let Some((prefix, _)) = iter.next() {
        found.push(prefix);
    }
    found
}

#[test]
fn test_from_entries_basic() {
    let entries = make_entries(&[(0, 0xFF00_0000), (1, 0xFE00_0000), (2, 0x0100_0000), (3, 0x0000_0000)]);
    let index = RadixSortIndex::from_entries(&entries);
    assert_eq!(index.total_slots(), 4);
    assert_eq!(index.populated_buckets(), 4);
    assert!(index.bucket(0xFF).unwrap().contains(0));
    assert!(index.bucket(0xFE).unwrap().contains(1));
    assert!(index.bucket(0x01).unwrap().contains(2));
    assert!(index.bucket(0x00).unwrap().contains(3));
}

#[test]
fn test_from_entries_same_bucket() {
    let entries = make_entries(&[(0, 0x8000_0000), (1, 0x80FF_FFFF), (2, 0x8050_0000)]);
    let index = RadixSortIndex::from_entries(&entries);
    assert_eq!(index.total_slots(), 3);
    assert_eq!(index.populated_buckets(), 1);
    let bucket = index.bucket(0x80).unwrap();
    assert_eq!(bucket.len(), 3);
}

#[test]
fn test_insert_and_remove() {
    let mut index = RadixSortIndex::from_entries(&vec![]);
    assert_eq!(index.total_slots(), 0);

    index.insert(10, 0xFF00_0000);
    index.insert(20, 0xFF80_0000);
    index.insert(30, 0x0100_0000);
    assert!(index.is_dirty());

    index.rebuild_counts();
    assert!(!index.is_dirty());
    assert_eq!(index.total_slots(), 3);

    index.remove(10, 0xFF00_0000);
    assert!(index.is_dirty());
    index.rebuild_counts();
    assert_eq!(index.total_slots(), 2);
    assert!(!index.bucket(0xFF).unwrap().contains(10));
}

#[test]
fn test_remove_blind() {
    let entries = make_entries(&[(0, 0xFF00_0000), (1, 0x8000_0000), (2, 0x0100_0000)]);
    let mut index = RadixSortIndex::from_entries(&entries);
    assert_eq!(index.total_slots(), 3);

    index.remove_blind(1);
    index.rebuild_counts();
    assert_eq!(index.total_slots(), 2);
    assert!(index.bucket(0x80).is_some());
    assert!(!index.bucket(0x80).unwrap().contains(1));
}

#[test]
fn test_cumulative_counts_desc() {
    let index = RadixSortIndex::from_entries(&three_buckets());
    assert_eq!(index.cumulative(255, SortDirection::Desc), 3);
    assert_eq!(index.cumulative(128, SortDirection::Desc), 5);
    assert_eq!(index.cumulative(0, SortDirection::Desc), 6);
}

#[test]
fn test_cumulative_counts_asc() {
    let index = RadixSortIndex::from_entries(&three_buckets());
    assert_eq!(index.cumulative(0, SortDirection::Asc), 1);
    assert_eq!(index.cumulative(128, SortDirection::Asc), 3);
    assert_eq!(index.cumulative(255, SortDirection::Asc), 6);
}

#[test]
fn test_offset_to_bucket_desc() {
    let mut index = RadixSortIndex::from_entries(&three_buckets());
    assert_eq!(index.offset_to_bucket(0, SortDirection::Desc), Some((0xFF, 0)));
    assert_eq!(index.offset_to_bucket(2, SortDirection::Desc), Some((0xFF, 2)));
    assert_eq!(index.offset_to_bucket(3, SortDirection::Desc), Some((0x80, 0)));
    assert_eq!(index.offset_to_bucket(5, SortDirection::Desc), Some((0x00, 0)));
    assert_eq!(index.offset_to_bucket(6, SortDirection::Desc), None);
}

#[test]
fn test_offset_to_bucket_asc() {
    let mut index = RadixSortIndex::from_entries(&three_buckets());
    assert_eq!(index.offset_to_bucket(0, SortDirection::Asc), Some((0x00, 0)));
    assert_eq!(index.offset_to_bucket(1, SortDirection::Asc), Some((0x80, 0)));
    assert_eq!(index.offset_to_bucket(3, SortDirection::Asc), Some((0xFF, 0)));
}

#[test]
fn test_iter_buckets_desc() {
    let entries = make_entries(&[(0, 0xFF00_0000), (1, 0x8000_0000), (2, 0x0000_0000)]);
    let index = RadixSortIndex::from_entries(&entries);
    assert_eq!(prefixes(&index, SortDirection::Desc), vec![0xFF, 0x80, 0x00]);
}

#[test]
fn test_iter_buckets_asc() {
    let entries = make_entries(&[(0, 0xFF00_0000), (1, 0x8000_0000), (2, 0x0000_0000)]);
    let index = RadixSortIndex::from_entries(&entries);
    assert_eq!(prefixes(&index, SortDirection::Asc), vec![0x00, 0x80, 0xFF]);
}

#[test]
fn test_memory_bytes() {
    let entries = make_entries(&[(0, 0xFF00_0000), (1, 0x8000_0000)]);
    let index = RadixSortIndex::from_entries(&entries);
    let mem = index.memory_bytes();
    assert!(mem > 0);
    assert!(mem < 100_000);
}

#[test]
fn test_empty_index() {
    let index = RadixSortIndex::from_entries(&vec![]);
    assert_eq!(index.total_slots(), 0);
    assert_eq!(index.populated_buckets(), 0);
    assert_eq!(prefixes(&index, SortDirection::Desc).len(), 0);
}

#[test]
fn test_from_bitmap() {
    let mut bitmap = RoaringBitmap::new();
    bitmap.insert(0);
    bitmap.insert(1);
    bitmap.insert(2);
    let index = RadixSortIndex::from_bitmap(&bitmap, &|slot| slot * 0x0100_0000);
    assert_eq!(index.total_slots(), 3);
    assert!(index.bucket(0x00).unwrap().contains(0));
    assert!(index.bucket(0x01).unwrap().contains(1));
    assert!(index.bucket(0x02).unwrap().contains(2));
}

#[test]
fn test_dirty_flag_lifecycle() {
    let mut index = RadixSortIndex::from_entries(&vec![]);
    assert!(!index.is_dirty());
    index.insert(0, 0xFF00_0000);
    assert!(index.is_dirty());
    index.rebuild_counts();
    assert!(!index.is_dirty());
    index.remove(0, 0xFF00_0000);
    assert!(index.is_dirty());
}

#[test]
fn pages_are_found_after_changes() {
    let mut index = RadixSortIndex::from_entries(&three_buckets());
    index.remove_blind(1);
    index.insert(9, 0x8012_3456);
    assert_eq!(index.offset_to_bucket(2, SortDirection::Desc), Some((0x80, 0)));
    assert_eq!(index.offset_to_bucket(4, SortDirection::Desc), Some((0x80, 2)));
    assert_eq!(index.offset_to_bucket(6, SortDirection::Desc), None);
}
