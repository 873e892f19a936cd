use ufos_core::{
    UfoCoreConfig, UfoCoreState, UfoError, UfoId, UfoInstanceMsg, UfoObjectConfig, UfoReply,
};

fn engine(low: usize, high: usize) -> UfoCoreState {
    UfoCoreState::new(UfoCoreConfig {
        writeback_temp_path: "/tmp",
        high_watermark: high,
        low_watermark: low,
    })
    .unwrap()
}

fn array(element_ct: usize) -> UfoObjectConfig {
    UfoObjectConfig::new_config(0, element_ct, 8, None, 4096)
}

fn with_header(element_ct: usize) -> UfoObjectConfig {
    UfoObjectConfig::new_config(24, element_ct, 8, None, 4096)
}

/// Serves a fault at `addr` with a chunk of zeros and gives the chunks that left.
fn touch(st: &mut UfoCoreState, addr: usize) -> usize {
    let (fault, evicted) = st.begin_fault(addr).unwrap();
    let data = vec![0u8; fault.copy_size];
    st.finish_fault(addr, &data).unwrap();
    evicted.len()
}

#[test]
fn watermarks_must_be_in_order() {
    let inverted = UfoCoreConfig {
        writeback_temp_path: "/tmp",
        high_watermark: 16384,
        low_watermark: 65536,
    };
    assert!(!inverted.is_valid());
    assert_eq!(UfoCoreState::new(inverted).err(), Some(UfoError::WatermarkInversion));
    let equal = UfoCoreConfig {
        writeback_temp_path: "/tmp",
        high_watermark: 4096,
        low_watermark: 4096,
    };
    assert_eq!(UfoCoreState::new(equal).err(), Some(UfoError::WatermarkInversion));
    let good = UfoCoreConfig {
        writeback_temp_path: "/tmp",
        high_watermark: 65536,
        low_watermark: 16384,
    };
    assert!(good.is_valid());
    assert!(UfoCoreState::new(good).is_ok());
}

#[test]
fn new_engine_is_empty() {
    let st = engine(16384, 65536);
    assert_eq!(st.object_ct(), 0);
    assert_eq!(st.chunk_ct(), 0);
    assert_eq!(st.used_memory(), 0);
    assert!(st.get_ufo(UfoId(1)).is_none());
    assert!(st.get_ufo_by_address(0x10000).is_none());
}

#[test]
fn allocation_registers_the_object() {
    let mut st = engine(16384, 65536);
    let h = st.allocate(with_header(1000), 0x7000_0000).unwrap();
    assert_eq!(h.id, UfoId(1));
    assert_eq!(h.ptr, 0x7000_0000);
    assert_eq!(h.header_offset, 4096 - 24);
    assert_eq!(h.body_offset, 4096);
    assert_eq!(h.header_ptr(), 0x7000_0000 + 4072);
    assert_eq!(h.body_ptr(), 0x7000_0000 + 4096);
    assert_eq!(st.object_ct(), 1);
    let ufo = st.get_ufo(UfoId(1)).unwrap();
    assert_eq!(ufo.id, UfoId(1));
    assert_eq!(ufo.base, 0x7000_0000);
    assert_eq!(ufo.config.true_size, 4096 + 8192);
    assert_eq!(ufo.writeback_util.bitmap_bytes, 4096);
    assert_eq!(ufo.writeback_util.total_bytes, 4096 + 8000);
    assert_eq!(ufo.writeback_util.chunk_bytes, 4096);
}

#[test]
fn identifiers_count_up() {
    let mut st = engine(16384, 65536);
    assert_eq!(st.allocate(array(1024), 0x10000).unwrap().id, UfoId(1));
    assert_eq!(st.allocate(array(1024), 0x20000).unwrap().id, UfoId(2));
    st.free(UfoId(1)).unwrap();
    // a freed identifier is not handed out again before the others
    assert_eq!(st.allocate(array(1024), 0x10000).unwrap().id, UfoId(3));
    assert_eq!(st.object_ct(), 2);
}

#[test]
fn failed_allocation_takes_no_identifier() {
    let mut st = engine(16384, 65536);
    assert_eq!(st.allocate(array(1024), 0x10000).unwrap().id, UfoId(1));
    assert_eq!(st.allocate(array(1024), 0x10000).err(), Some(UfoError::SegmentOverlap));
    assert_eq!(st.allocate(array(1024), 0x20000).unwrap().id, UfoId(2));
}

#[test]
fn overlapping_reservations_are_refused() {
    let mut st = engine(16384, 65536);
    // the object takes 0x10000 up to 0x12000
    st.allocate(array(1024), 0x10000).unwrap();
    assert_eq!(st.allocate(array(1024), 0x10000).err(), Some(UfoError::SegmentOverlap));
    assert_eq!(st.allocate(array(1024), 0x11000).err(), Some(UfoError::SegmentOverlap));
    assert_eq!(st.allocate(array(1024), 0xf000).err(), Some(UfoError::SegmentOverlap));
    // a larger one around it
    assert_eq!(st.allocate(array(1024 * 16), 0x8000).err(), Some(UfoError::SegmentOverlap));
    assert_eq!(st.object_ct(), 1);
    // neighbours on both sides are fine
    assert!(st.allocate(array(1024), 0x12000).is_ok());
    assert!(st.allocate(array(1024), 0xe000).is_ok());
    assert_eq!(st.object_ct(), 3);
}

#[test]
fn reservation_must_end_in_the_address_space() {
    let mut st = engine(16384, 65536);
    assert_eq!(
        st.allocate(array(1024), usize::MAX - 8191).err(),
        Some(UfoError::AddressOverflow)
    );
    assert!(st.allocate(array(1024), usize::MAX - 8192).is_ok());
}

#[test]
fn store_must_fit_in_the_address_space() {
    let mut st = engine(16384, 65536);
    let huge = UfoObjectConfig::new_config(0, usize::MAX - 8191, 1, None, 4096);
    assert_eq!(huge.true_size, usize::MAX - 8191);
    assert_eq!(st.allocate(huge, 0).err(), Some(UfoError::WritebackTooLarge));
    assert_eq!(st.object_ct(), 0);
}

#[test]
fn objects_are_found_by_address() {
    let mut st = engine(16384, 65536);
    st.allocate(with_header(1000), 0x10000).unwrap();
    st.allocate(array(1024), 0x40000).unwrap();
    assert_eq!(st.get_ufo_by_address(0x10000).unwrap().id, UfoId(1));
    assert_eq!(st.get_ufo_by_address(0x10000 + 4096 + 8191).unwrap().id, UfoId(1));
    assert!(st.get_ufo_by_address(0x10000 + 4096 + 8192).is_none());
    assert!(st.get_ufo_by_address(0xffff).is_none());
    assert_eq!(st.get_ufo_by_address(0x40000).unwrap().id, UfoId(2));
    assert_eq!(st.get_ufo_by_address(0x41fff).unwrap().id, UfoId(2));
    assert!(st.get_ufo_by_address(0x42000).is_none());
}

#[test]
fn fault_is_located_in_its_object() {
    let mut st = engine(16384, 65536);
    st.allocate(with_header(1000), 0x10000).unwrap();
    st.allocate(array(1024), 0x40000).unwrap();
    let fault = st.locate_fault(0x40000 + 4096 + 16).unwrap();
    assert_eq!(fault.ufo_id, UfoId(2));
    assert_eq!(fault.populate_offset.as_ptr_int(), 0x40000 + 4096);
    assert_eq!(fault.start, 512);
    assert_eq!(fault.pop_end, 1024);
    assert_eq!(fault.load_size, 4096);
    assert_eq!(fault.copy_size, 4096);
    let fault = st.locate_fault(0x10000 + 4096).unwrap();
    assert_eq!(fault.ufo_id, UfoId(1));
    assert_eq!(fault.populate_offset.as_ptr_int(), 0x10000 + 4096);
    assert_eq!(fault.start, 0);
    assert_eq!(fault.pop_end, 512);
}

#[test]
fn fault_outside_every_object_is_an_error() {
    let mut st = engine(16384, 65536);
    assert_eq!(st.locate_fault(0x10000).err(), Some(UfoError::UnknownAddress));
    st.allocate(array(1024), 0x10000).unwrap();
    assert_eq!(st.locate_fault(0x12000).err(), Some(UfoError::UnknownAddress));
    assert_eq!(st.begin_fault(0x12000).err(), Some(UfoError::UnknownAddress));
    assert_eq!(st.finish_fault(0x12000, &[0u8; 4096]).err(), Some(UfoError::UnknownAddress));
}

#[test]
fn fault_in_a_header_is_an_error() {
    let mut st = engine(16384, 65536);
    st.allocate(with_header(1000), 0x10000).unwrap();
    assert_eq!(st.locate_fault(0x10000).err(), Some(UfoError::HeaderFault));
    assert_eq!(st.locate_fault(0x10000 + 4095).err(), Some(UfoError::HeaderFault));
    assert_eq!(st.begin_fault(0x10000 + 4072).err(), Some(UfoError::HeaderFault));
    assert_eq!(st.finish_fault(0x10000, &[0u8; 4096]).err(), Some(UfoError::HeaderFault));
    assert!(st.locate_fault(0x10000 + 4096).is_ok());
}

#[test]
fn chunk_must_fit_between_the_watermarks() {
    // 4096 + 4096 is not below 8192
    let mut st = engine(4096, 8192);
    st.allocate(array(1024), 0x10000).unwrap();
    assert_eq!(st.begin_fault(0x10000).err(), Some(UfoError::ChunkTooLarge));
    assert_eq!(st.used_memory(), 0);
    let mut st = engine(4095, 8192);
    st.allocate(array(1024), 0x10000).unwrap();
    assert!(st.begin_fault(0x10000).is_ok());
}

#[test]
fn served_fault_admits_a_chunk() {
    let mut st = engine(16384, 65536);
    st.allocate(array(1024), 0x10000).unwrap();
    let (fault, evicted) = st.begin_fault(0x10000 + 5000).unwrap();
    assert!(evicted.is_empty());
    let data = vec![3u8; fault.copy_size];
    let chunk = st.finish_fault(0x10000 + 5000, &data).unwrap();
    assert_eq!(chunk.ufo_id(), UfoId(1));
    assert_eq!(chunk.size(), 4096);
    assert_eq!(chunk.offset.absolute_offset(), 4096);
    assert_eq!(&chunk.hash, blake3::hash(&data).as_bytes());
    assert_eq!(st.used_memory(), 4096);
    assert_eq!(st.chunk_ct(), 1);
}

#[test]
fn chunk_of_the_wrong_size_is_refused() {
    let mut st = engine(16384, 65536);
    st.allocate(array(1024), 0x10000).unwrap();
    st.begin_fault(0x10000).unwrap();
    assert_eq!(st.finish_fault(0x10000, &[0u8; 100]).err(), Some(UfoError::ChunkNotValid));
    assert_eq!(st.record_chunk(0x10000, 8192, [0u8; 32]).err(), Some(UfoError::ChunkNotValid));
    assert_eq!(st.used_memory(), 0);
    assert_eq!(st.chunk_ct(), 0);
}

#[test]
fn chunk_is_recorded_with_the_given_hash() {
    let mut st = engine(16384, 65536);
    st.allocate(array(1024), 0x10000).unwrap();
    let chunk = st.record_chunk(0x10000 + 4100, 4096, [0xab; 32]).unwrap();
    assert_eq!(chunk.hash, [0xab; 32]);
    assert_eq!(chunk.size(), 4096);
    assert_eq!(chunk.offset.absolute_offset(), 4096);
    assert_eq!(st.used_memory(), 4096);
}

#[test]
fn chunk_without_room_is_refused() {
    let mut st = engine(4096, 12288);
    st.allocate(array(1024 * 8), 0x10000).unwrap();
    // admitted without having made room: three chunks fill the cache
    for i in 0..3 {
        st.finish_fault(0x10000 + i * 4096, &[0u8; 4096]).unwrap();
    }
    assert_eq!(st.used_memory(), 12288);
    assert_eq!(
        st.finish_fault(0x10000 + 3 * 4096, &[0u8; 4096]).err(),
        Some(UfoError::ChunkTooLarge)
    );
    assert_eq!(st.used_memory(), 12288);
    // making room first lets the chunk in
    let (_, evicted) = st.begin_fault(0x10000 + 3 * 4096).unwrap();
    assert_eq!(evicted.len(), 2);
    assert_eq!(st.used_memory(), 4096);
    st.finish_fault(0x10000 + 3 * 4096, &[0u8; 4096]).unwrap();
    assert_eq!(st.used_memory(), 8192);
}

#[test]
fn cache_stays_below_the_high_watermark() {
    let mut st = engine(16384, 65536);
    st.allocate(array(512 * 100), 0x100000).unwrap();
    let mut evictions = 0;
    for i in 0..100 {
        evictions += touch(&mut st, 0x100000 + i * 4096);
        assert!(st.used_memory() <= 65536);
    }
    // 16 chunks fill the cache; the 17th brings it down to 4 and joins them
    assert!(evictions > 0);
    assert!(st.used_memory() >= 16384);
}

#[test]
fn eviction_pass_reaches_the_low_watermark() {
    let mut st = engine(16384, 65536);
    st.allocate(array(512 * 100), 0x100000).unwrap();
    for i in 0..16 {
        assert_eq!(touch(&mut st, 0x100000 + i * 4096), 0);
    }
    assert_eq!(st.used_memory(), 65536);
    let evicted = st.ensure_capcity(4096);
    assert_eq!(evicted.len(), 12);
    assert_eq!(st.used_memory(), 16384);
    assert_eq!(st.chunk_ct(), 4);
    // oldest first
    for (i, chunk) in evicted.iter().enumerate() {
        assert_eq!(chunk.offset.absolute_offset(), i * 4096);
    }
    // with room enough nothing leaves
    assert_eq!(st.ensure_capcity(4096).len(), 0);
    assert_eq!(st.ensure_capcity(65536 - 16384).len(), 0);
    assert_eq!(st.ensure_capcity(65536 - 16384 - 1).len(), 0);
}

#[test]
fn reset_drops_the_chunks_of_the_object() {
    let mut st = engine(16384, 65536);
    st.allocate(array(1024), 0x10000).unwrap();
    st.allocate(array(1024), 0x20000).unwrap();
    touch(&mut st, 0x10000);
    touch(&mut st, 0x20000);
    touch(&mut st, 0x11000);
    assert_eq!(st.used_memory(), 12288);
    let ufo = st.reset(UfoId(1)).unwrap();
    assert_eq!(ufo.id, UfoId(1));
    assert_eq!(ufo.base, 0x10000);
    assert_eq!(st.used_memory(), 4096);
    assert_eq!(st.chunk_ct(), 3);
    assert_eq!(st.object_ct(), 2);
    // once more changes nothing
    assert_eq!(st.reset(UfoId(1)).unwrap().id, UfoId(1));
    assert_eq!(st.used_memory(), 4096);
    assert_eq!(st.chunk_ct(), 3);
    // the object still serves faults
    assert!(st.locate_fault(0x10000).is_ok());
}

#[test]
fn reset_of_an_unknown_object_fails() {
    let mut st = engine(16384, 65536);
    assert_eq!(st.reset(UfoId(1)).err(), Some(UfoError::UnknownUfo));
    st.allocate(array(1024), 0x10000).unwrap();
    assert_eq!(st.reset(UfoId(2)).err(), Some(UfoError::UnknownUfo));
}

#[test]
fn free_takes_the_object_out() {
    let mut st = engine(16384, 65536);
    st.allocate(array(1024), 0x10000).unwrap();
    st.allocate(array(1024), 0x20000).unwrap();
    touch(&mut st, 0x10000);
    touch(&mut st, 0x20000);
    let ufo = st.free(UfoId(1)).unwrap();
    assert_eq!(ufo.id, UfoId(1));
    assert_eq!(ufo.base, 0x10000);
    assert_eq!(ufo.config.true_size, 8192);
    assert_eq!(st.object_ct(), 1);
    assert!(st.get_ufo(UfoId(1)).is_none());
    assert!(st.get_ufo_by_address(0x10000).is_none());
    assert_eq!(st.locate_fault(0x10000).err(), Some(UfoError::UnknownAddress));
    assert_eq!(st.used_memory(), 4096);
    // the other object is untouched
    assert_eq!(st.get_ufo_by_address(0x20000).unwrap().id, UfoId(2));
    // the range can be reserved again
    assert!(st.allocate(array(1024), 0x10000).is_ok());
}

#[test]
fn free_of_an_unknown_object_fails() {
    let mut st = engine(16384, 65536);
    assert_eq!(st.free(UfoId(1)).err(), Some(UfoError::UnknownUfo));
    st.allocate(array(1024), 0x10000).unwrap();
    st.free(UfoId(1)).unwrap();
    assert_eq!(st.free(UfoId(1)).err(), Some(UfoError::UnknownUfo));
    assert_eq!(st.object_ct(), 0);
}

#[test]
fn chunks_of_a_freed_object_leave_for_nothing() {
    let mut st = engine(4096, 12288);
    st.allocate(array(1024 * 8), 0x10000).unwrap();
    st.allocate(array(1024 * 8), 0x80000).unwrap();
    touch(&mut st, 0x10000);
    touch(&mut st, 0x80000);
    touch(&mut st, 0x11000);
    st.free(UfoId(1)).unwrap();
    assert_eq!(st.used_memory(), 4096);
    touch(&mut st, 0x81000);
    touch(&mut st, 0x82000);
    // the next fault needs room: the freed chunks leave first, without bytes
    let (_, evicted) = st.begin_fault(0x83000).unwrap();
    assert_eq!(evicted.len(), 4);
    assert_eq!((evicted[0].ufo_id(), evicted[0].size()), (UfoId(1), 0));
    assert_eq!((evicted[1].ufo_id(), evicted[1].size()), (UfoId(2), 4096));
    assert_eq!((evicted[2].ufo_id(), evicted[2].size()), (UfoId(1), 0));
    assert_eq!((evicted[3].ufo_id(), evicted[3].size()), (UfoId(2), 4096));
    assert!(st.get_ufo(evicted[0].ufo_id()).is_none());
}

#[test]
fn shutdown_frees_every_object() {
    let mut st = engine(16384, 65536);
    st.allocate(array(1024), 0x30000).unwrap();
    st.allocate(array(1024), 0x10000).unwrap();
    st.allocate(with_header(1000), 0x20000).unwrap();
    touch(&mut st, 0x30000);
    touch(&mut st, 0x10000);
    let freed = st.shutdown();
    // in the order of the addresses
    let ids: Vec<UfoId> = freed.iter().map(|ufo| ufo.id).collect();
    assert_eq!(ids, vec![UfoId(2), UfoId(3), UfoId(1)]);
    assert_eq!(freed[1].config.true_size, 4096 + 8192);
    assert_eq!(st.object_ct(), 0);
    assert_eq!(st.used_memory(), 0);
    assert_eq!(st.chunk_ct(), 2);
    assert!(st.get_ufo_by_address(0x10000).is_none());
    assert_eq!(st.locate_fault(0x30000).err(), Some(UfoError::UnknownAddress));
    assert!(st.shutdown().is_empty());
}

#[test]
fn control_plane_answers_each_request() {
    let mut st = engine(16384, 65536);
    let handle = match st.handle_msg(UfoInstanceMsg::Allocate(array(1024), 0x10000)) {
        UfoReply::Allocated(h) => h,
        other => panic!("{:?}", other),
    };
    assert_eq!(handle.id, UfoId(1));
    assert_eq!(handle.body_ptr(), 0x10000);
    match st.handle_msg(UfoInstanceMsg::Allocate(array(1024), 0x11000)) {
        UfoReply::Failed(e) => assert_eq!(e, UfoError::SegmentOverlap),
        other => panic!("{:?}", other),
    }
    touch(&mut st, 0x10000);
    match st.handle_msg(UfoInstanceMsg::Reset(handle.id)) {
        UfoReply::Reset(ufo) => assert_eq!(ufo.id, handle.id),
        other => panic!("{:?}", other),
    }
    assert_eq!(st.used_memory(), 0);
    match st.handle_msg(UfoInstanceMsg::Reset(UfoId(5))) {
        UfoReply::Failed(e) => assert_eq!(e, UfoError::UnknownUfo),
        other => panic!("{:?}", other),
    }
    match st.handle_msg(UfoInstanceMsg::Free(handle.id)) {
        UfoReply::Freed(ufo) => assert_eq!(ufo.base, 0x10000),
        other => panic!("{:?}", other),
    }
    match st.handle_msg(UfoInstanceMsg::Free(handle.id)) {
        UfoReply::Failed(e) => assert_eq!(e, UfoError::UnknownUfo),
        other => panic!("{:?}", other),
    }
    st.handle_msg(UfoInstanceMsg::Allocate(array(1024), 0x10000));
    st.handle_msg(UfoInstanceMsg::Allocate(array(1024), 0x20000));
    match st.handle_msg(UfoInstanceMsg::Shutdown) {
        UfoReply::Shutdown(freed) => assert_eq!(freed.len(), 2),
        other => panic!("{:?}", other),
    }
    assert_eq!(st.object_ct(), 0);
}

#[test]
fn handle_asks_for_its_own_object() {
    let mut st = engine(16384, 65536);
    st.allocate(array(1024), 0x10000).unwrap();
    let handle = st.allocate(array(1024), 0x20000).unwrap();
    touch(&mut st, 0x20000);
    match handle.reset() {
        UfoInstanceMsg::Reset(id) => assert_eq!(id, UfoId(2)),
        other => panic!("{:?}", other),
    }
    match st.handle_msg(handle.reset()) {
        UfoReply::Reset(ufo) => assert_eq!(ufo.base, 0x20000),
        other => panic!("{:?}", other),
    }
    assert_eq!(st.used_memory(), 0);
    match handle.free() {
        UfoInstanceMsg::Free(id) => assert_eq!(id, UfoId(2)),
        other => panic!("{:?}", other),
    }
    match st.handle_msg(handle.free()) {
        UfoReply::Freed(ufo) => assert_eq!(ufo.id, UfoId(2)),
        other => panic!("{:?}", other),
    }
    assert_eq!(st.object_ct(), 1);
    assert!(st.get_ufo(UfoId(1)).is_some());
}
