use zcash_client_backend::proto::compact_formats::CompactBlock;
use zec_wallet::cache::{CachedBlock, HeightRange, MemoryBlockCache};

fn block(height: u64, tag: u8) -> CompactBlock {
    CompactBlock {
        height,
        hash: vec![tag],
        ..Default::default()
    }
}

fn cached(height: u64, tag: u8) -> CachedBlock {
    CachedBlock {
        height,
        block: block(height, tag),
    }
}

fn heights(blocks: &[CompactBlock]) -> Vec<u64> {
    blocks.iter().map(|b| b.height).collect()
}

fn filled(hs: &[u64]) -> MemoryBlockCache {
    let mut cache = MemoryBlockCache::new();
    cache.insert(hs.iter().map(|h| cached(*h, 0)).collect());
    cache
}

#[test]
fn new_cache_is_empty() {
    let cache = MemoryBlockCache::new();
    assert!(cache.with_blocks(None, None).is_empty());
    assert_eq!(cache.get_tip_height(None), None);
}

#[test]
fn insert_keeps_ascending_order() {
    let cache = filled(&[5, 3, 4, 10]);
    assert_eq!(heights(&cache.with_blocks(None, None)), vec![3, 4, 5, 10]);
}

#[test]
fn insert_replaces_block_at_same_height() {
    let mut cache = filled(&[3, 4]);
    cache.insert(vec![cached(4, 9)]);
    let all = cache.with_blocks(None, None);
    assert_eq!(heights(&all), vec![3, 4]);
    assert_eq!(all[1], block(4, 9));
}

#[test]
fn later_block_in_one_insert_wins() {
    let mut cache = MemoryBlockCache::new();
    cache.insert(vec![cached(7, 1), cached(7, 2)]);
    let all = cache.with_blocks(None, None);
    assert_eq!(all, vec![block(7, 2)]);
}

#[test]
fn with_blocks_from_height_and_limit() {
    let cache = filled(&[3, 4, 5, 6]);
    assert_eq!(heights(&cache.with_blocks(Some(4), None)), vec![4, 5, 6]);
    assert_eq!(heights(&cache.with_blocks(Some(4), Some(2))), vec![4, 5]);
    assert_eq!(heights(&cache.with_blocks(None, Some(1))), vec![3]);
    assert_eq!(heights(&cache.with_blocks(Some(4), Some(10))), vec![4, 5, 6]);
    assert!(cache.with_blocks(Some(7), None).is_empty());
    assert!(cache.with_blocks(None, Some(0)).is_empty());
}

#[test]
fn tip_height_within_range() {
    let cache = filled(&[3, 4, 5, 9]);
    assert_eq!(cache.get_tip_height(None), Some(9));
    assert_eq!(cache.get_tip_height(Some(HeightRange { start: 3, end: 6 })), Some(5));
    assert_eq!(cache.get_tip_height(Some(HeightRange { start: 6, end: 9 })), None);
    assert_eq!(cache.get_tip_height(Some(HeightRange { start: 9, end: 10 })), Some(9));
}

#[test]
fn tip_height_reads_low_32_bits() {
    let big = (1u64 << 32) + 2;
    let cache = filled(&[1, big]);
    assert_eq!(cache.get_tip_height(None), Some(2));
    assert_eq!(cache.get_tip_height(Some(HeightRange { start: 2, end: 3 })), Some(2));
}

#[test]
fn read_gives_contiguous_run() {
    let cache = filled(&[3, 4, 5, 8]);
    let run = cache.read(HeightRange { start: 3, end: 10 }).unwrap();
    assert_eq!(heights(&run), vec![3, 4, 5]);
    let exact = cache.read(HeightRange { start: 3, end: 5 }).unwrap();
    assert_eq!(heights(&exact), vec![3, 4]);
}

#[test]
fn read_of_empty_range_is_empty() {
    let cache = filled(&[3, 4]);
    assert!(cache.read(HeightRange { start: 10, end: 20 }).unwrap().is_empty());
}

#[test]
fn read_fails_when_start_missing() {
    let cache = filled(&[4, 5]);
    let err = cache.read(HeightRange { start: 3, end: 6 }).unwrap_err();
    assert_eq!(err.message(), "Compact-block cache starts at 4, expected 3");
}

#[test]
fn delete_removes_range_only() {
    let mut cache = filled(&[3, 4, 5, 6]);
    cache.delete(HeightRange { start: 4, end: 6 });
    assert_eq!(heights(&cache.with_blocks(None, None)), vec![3, 6]);
}

#[test]
fn law_read_after_insert_concrete() {
    let mut cache = filled(&[1, 2, 9]);
    cache.insert(vec![cached(5, 42)]);
    let read = cache.read(HeightRange { start: 5, end: 6 }).unwrap();
    assert_eq!(read, vec![block(5, 42)]);
}

#[test]
fn law_delete_clears_range_concrete() {
    let mut cache = filled(&[1, 2, 3, 4]);
    let range = HeightRange { start: 2, end: 4 };
    cache.delete(range);
    assert_eq!(cache.get_tip_height(Some(range)), None);
    assert!(cache.read(range).unwrap().is_empty());
}

#[test]
fn law_unbounded_with_blocks_is_everything() {
    let cache = filled(&[2, 8, 4]);
    assert_eq!(heights(&cache.with_blocks(None, None)), vec![2, 4, 8]);
}

#[test]
fn law_store_determined_by_contents_concrete() {
    let a = filled(&[5, 1, 3]);
    let b = filled(&[3, 5, 1]);
    assert_eq!(a.with_blocks(None, None), b.with_blocks(None, None));
}

#[test]
fn law_read_is_contiguous_concrete() {
    let cache = filled(&[10, 11, 12, 14, 15]);
    let run = cache.read(HeightRange { start: 10, end: 100 }).unwrap();
    let hs = heights(&run);
    assert_eq!(hs, vec![10, 11, 12]);
    for (k, h) in hs.iter().enumerate() {
        assert_eq!(*h, 10 + k as u64);
    }
}

#[test]
fn law_tip_is_highest_in_range_concrete() {
    let cache = filled(&[2, 7, 5, 30]);
    assert_eq!(cache.get_tip_height(Some(HeightRange { start: 0, end: 10 })), Some(7));
    assert_eq!(cache.get_tip_height(Some(HeightRange { start: 8, end: 29 })), None);
}

#[test]
fn read_stops_at_range_end() {
    let cache = filled(&[3, 4, 5, 6]);
    let run = cache.read(HeightRange { start: 4, end: 6 }).unwrap();
    assert_eq!(heights(&run), vec![4, 5]);
}

#[test]
fn read_selects_by_low_32_bits() {
    let wrapped = (1u64 << 32) + 3;
    let cache = filled(&[3, wrapped]);
    let run = cache.read(HeightRange { start: 3, end: 4 }).unwrap();
    assert_eq!(heights(&run), vec![3]);
}

#[test]
fn error_message_round_trip() {
    let e = zec_wallet::cache::MemoryBlockCacheError::new("boom".to_string());
    assert_eq!(e.message(), "boom");
}

#[test]
fn law_read_back_contiguous_range_concrete() {
    let mut cache = MemoryBlockCache::new();
    cache.insert(vec![cached(12, 2), cached(10, 0), cached(13, 3), cached(11, 1)]);
    let run = cache.read(HeightRange { start: 10, end: 14 }).unwrap();
    assert_eq!(run, vec![block(10, 0), block(11, 1), block(12, 2), block(13, 3)]);
}
