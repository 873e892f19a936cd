use std::sync::Arc;
use ufos_core::hashing::hash_eq;
use ufos_core::{
    UfoChunk, UfoChunks, UfoCoreConfig, UfoError, UfoFileWriteback, UfoId, UfoObject,
    UfoObjectConfig, UfoOffset,
};

fn object(id: u64, element_ct: usize, base: usize) -> UfoObject {
    let config = UfoObjectConfig::new_config(0, element_ct, 8, None, 4096);
    let writeback_util = UfoFileWriteback::new(&config).unwrap();
    UfoObject { id: UfoId(id), config, base, writeback_util }
}

fn offset(ufo: &UfoObject, from_header: usize) -> UfoOffset {
    UfoOffset::from_addr(ufo, ufo.base + ufo.config.header_size_with_padding + from_header)
}

fn chunk(ufo: &UfoObject, from_header: usize, len: usize) -> UfoChunk {
    UfoChunk::new(ufo.id, offset(ufo, from_header), &vec![0u8; len])
}

fn cache(low: usize, high: usize) -> UfoChunks {
    UfoChunks::new(Arc::new(UfoCoreConfig {
        writeback_temp_path: "/tmp",
        high_watermark: high,
        low_watermark: low,
    }))
}

#[test]
fn chunk_carries_the_hash_of_its_bytes() {
    let ufo = object(3, 1024, 0x10000);
    let data = vec![7u8; 4096];
    let c = UfoChunk::new(ufo.id, offset(&ufo, 4096), &data);
    assert_eq!(c.ufo_id(), UfoId(3));
    assert_eq!(c.size(), 4096);
    assert_eq!(c.offset.absolute_offset(), 4096);
    assert_eq!(&c.hash, blake3::hash(&data).as_bytes());
    // the known hash of no bytes at all
    let empty = UfoChunk::new(ufo.id, offset(&ufo, 0), &[]);
    assert_eq!(
        blake3::Hash::from_bytes(empty.hash).to_hex().as_str(),
        "af1349b9f5f9a1a6a0404dea36dcc9499bcb25c9adc112b7cc9a93cae41f3262"
    );
}

#[test]
fn hashes_are_compared_by_their_bytes() {
    let a = *blake3::hash(b"a").as_bytes();
    let b = *blake3::hash(b"b").as_bytes();
    let mut almost = a;
    almost[31] ^= 1;
    assert!(hash_eq(&a, &a));
    assert!(!hash_eq(&a, &b));
    assert!(!hash_eq(&a, &almost));
}

#[test]
fn freed_chunk_has_no_bytes() {
    let ufo = object(3, 1024, 0x10000);
    let mut c = chunk(&ufo, 0, 4096);
    let hash = c.hash;
    c.mark_freed();
    assert_eq!(c.size(), 0);
    assert_eq!(c.ufo_id(), UfoId(3));
    assert_eq!(c.hash, hash);
}

#[test]
fn clean_chunk_is_freed_without_writeback() {
    let ufo = object(1, 1024, 0x10000);
    let mut region = vec![0u8; ufo.writeback_util.total_bytes];
    let data = vec![9u8; 4096];
    let mut c = UfoChunk::new(ufo.id, offset(&ufo, 0), &data);
    assert_eq!(c.free_and_writeback_dirty(&ufo, &data, &mut region), Ok(4096));
    assert_eq!(c.size(), 0);
    assert!(region.iter().all(|b| *b == 0));
    assert!(ufo.writeback_util.try_readback(&region, &offset(&ufo, 0)).is_none());
}

#[test]
fn dirty_chunk_is_written_back() {
    let ufo = object(1, 1024, 0x10000);
    let mut region = vec![0u8; ufo.writeback_util.total_bytes];
    let data = vec![9u8; 4096];
    let mut c = UfoChunk::new(ufo.id, offset(&ufo, 4096), &data);
    let mut live = data.clone();
    live[17] = 10;
    assert_eq!(c.free_and_writeback_dirty(&ufo, &live, &mut region), Ok(4096));
    assert_eq!(c.size(), 0);
    assert_eq!(ufo.writeback_util.try_readback(&region, &offset(&ufo, 4096)), Some(&live[..]));
}

#[test]
fn freed_chunk_is_evicted_for_nothing() {
    let ufo = object(1, 1024, 0x10000);
    let mut region = vec![0u8; ufo.writeback_util.total_bytes];
    let mut c = chunk(&ufo, 0, 4096);
    c.mark_freed();
    assert_eq!(c.free_and_writeback_dirty(&ufo, &[], &mut region), Ok(0));
    assert!(region.iter().all(|b| *b == 0));
}

#[test]
fn dirty_chunk_that_is_no_chunk_fails() {
    let ufo = object(1, 1024, 0x10000);
    let mut region = vec![0u8; ufo.writeback_util.total_bytes];
    let data = vec![9u8; 4096];
    // not at a chunk boundary of the object
    let mut c = UfoChunk::new(ufo.id, offset(&ufo, 64), &data);
    let live = vec![1u8; 4096];
    assert_eq!(
        c.free_and_writeback_dirty(&ufo, &live, &mut region),
        Err(UfoError::ChunkNotValid)
    );
    assert_eq!(c.size(), 4096);
    assert!(region.iter().all(|b| *b == 0));
}

#[test]
fn eviction_goes_by_the_given_hash() {
    let ufo = object(1, 1024, 0x10000);
    let mut region = vec![0u8; ufo.writeback_util.total_bytes];
    let data = vec![9u8; 4096];
    let live = vec![1u8; 4096];
    // the same hash as at admission: clean, whatever the bytes are
    let mut c = UfoChunk::new(ufo.id, offset(&ufo, 0), &data);
    let admitted = c.hash;
    assert_eq!(c.free_with_hash(&admitted, &ufo, &live, &mut region), Ok(4096));
    assert!(region.iter().all(|b| *b == 0));
    // another hash: dirty
    let mut c = UfoChunk::new(ufo.id, offset(&ufo, 0), &data);
    let other = [0u8; 32];
    assert_eq!(c.free_with_hash(&other, &ufo, &live, &mut region), Ok(4096));
    assert_eq!(ufo.writeback_util.try_readback(&region, &offset(&ufo, 0)), Some(&live[..]));
}

#[test]
fn cache_accounts_for_its_chunks() {
    let ufo = object(1, 4096, 0x10000);
    let mut cache = cache(8192, 65536);
    assert_eq!(cache.used_memory(), 0);
    assert_eq!(cache.len(), 0);
    assert_eq!(cache.low_watermark(), 8192);
    assert_eq!(cache.high_watermark(), 65536);
    cache.add(chunk(&ufo, 0, 4096));
    cache.add(chunk(&ufo, 4096, 4096));
    cache.add(chunk(&ufo, 8192, 100));
    assert_eq!(cache.used_memory(), 8292);
    assert_eq!(cache.len(), 3);
}

#[test]
fn cache_evicts_oldest_first_to_the_low_watermark() {
    let ufo = object(1, 4096, 0x10000);
    let mut cache = cache(8192, 65536);
    for i in 0..5 {
        cache.add(chunk(&ufo, i * 4096, 4096));
    }
    assert_eq!(cache.used_memory(), 20480);
    let evicted = cache.free_until_low_water_mark();
    assert_eq!(evicted.len(), 3);
    assert_eq!(evicted[0].offset.absolute_offset(), 0);
    assert_eq!(evicted[1].offset.absolute_offset(), 4096);
    assert_eq!(evicted[2].offset.absolute_offset(), 8192);
    // the chunks come out as they were: the caller evicts them
    assert_eq!(evicted[0].size(), 4096);
    assert_eq!(cache.used_memory(), 8192);
    assert_eq!(cache.len(), 2);
    // at the low watermark nothing leaves
    assert_eq!(cache.free_until_low_water_mark().len(), 0);
    assert_eq!(cache.len(), 2);
}

#[test]
fn cache_below_the_low_watermark_evicts_nothing() {
    let ufo = object(1, 4096, 0x10000);
    let mut cache = cache(8192, 65536);
    cache.add(chunk(&ufo, 0, 4096));
    assert_eq!(cache.free_until_low_water_mark().len(), 0);
    assert_eq!(cache.used_memory(), 4096);
    let mut empty = self::cache(0, 1);
    assert_eq!(empty.free_until_low_water_mark().len(), 0);
}

#[test]
fn cache_with_low_watermark_zero_is_emptied() {
    let ufo = object(1, 4096, 0x10000);
    let mut cache = cache(0, 65536);
    cache.add(chunk(&ufo, 0, 4096));
    cache.add(chunk(&ufo, 4096, 4096));
    assert_eq!(cache.free_until_low_water_mark().len(), 2);
    assert_eq!(cache.used_memory(), 0);
    assert_eq!(cache.len(), 0);
}

#[test]
fn cache_drops_the_chunks_of_one_object() {
    let a = object(1, 4096, 0x10000);
    let b = object(2, 4096, 0x90000);
    let mut cache = cache(4096, 65536);
    cache.add(chunk(&a, 0, 4096));
    cache.add(chunk(&b, 0, 4096));
    cache.add(chunk(&a, 4096, 4096));
    cache.add(chunk(&b, 4096, 100));
    cache.drop_ufo_chunks(UfoId(1));
    // the chunks stay in the queue, those of object 1 without bytes
    assert_eq!(cache.len(), 4);
    assert_eq!(cache.used_memory(), 4196);
    // dropping them again changes nothing
    cache.drop_ufo_chunks(UfoId(1));
    assert_eq!(cache.len(), 4);
    assert_eq!(cache.used_memory(), 4196);
    // freed chunks leave with the others, in the old order, and count for nothing
    let evicted = cache.free_until_low_water_mark();
    assert_eq!(evicted.len(), 2);
    assert_eq!((evicted[0].ufo_id(), evicted[0].size()), (UfoId(1), 0));
    assert_eq!((evicted[1].ufo_id(), evicted[1].size()), (UfoId(2), 4096));
    assert_eq!(cache.used_memory(), 100);
    assert_eq!(cache.len(), 2);
}

#[test]
fn cache_drops_nothing_of_an_unknown_object() {
    let a = object(1, 4096, 0x10000);
    let mut cache = cache(4096, 65536);
    cache.add(chunk(&a, 0, 4096));
    cache.drop_ufo_chunks(UfoId(9));
    assert_eq!(cache.used_memory(), 4096);
    assert_eq!(cache.len(), 1);
}
