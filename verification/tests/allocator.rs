use arena_alloc::block::Block;
use arena_alloc::manager::{MEMORY_SIZE, MemError, MemoryManager};

fn live_total(m: &MemoryManager) -> usize {
    let report = m.dump();
    let free: usize = report.free_blocks.iter().map(|block| block.size).sum();
    let allocated: usize = report.allocated_blocks.iter().map(|entry| entry.block.size).sum();
    free + allocated
}

#[test]
fn fresh_manager_is_one_free_block() {
    let m = MemoryManager::new();
    let report = m.dump();
    assert_eq!(report.free_blocks, vec![Block { start: 0, size: MEMORY_SIZE }]);
    assert!(report.allocated_blocks.is_empty());
}

#[test]
fn best_fit_selects_tightest_block() {
    let mut m = MemoryManager::with_capacity(160);
    let id0 = m.insert(10, b"a").unwrap();
    let id1 = m.insert(50, b"b").unwrap();
    let id2 = m.insert(100, b"c").unwrap();
    m.delete(id0).unwrap();
    m.delete(id1).unwrap();
    m.delete(id2).unwrap();
    // free blocks now have sizes {10, 50, 100}; a request for 40 must
    // take the size-50 block, at start 10
    let id3 = m.insert(40, b"d").unwrap();
    let report = m.dump();
    assert_eq!(report.allocated_blocks.len(), 1);
    assert_eq!(report.allocated_blocks[0].id, id3);
    assert_eq!(report.allocated_blocks[0].block, Block { start: 10, size: 40 });
    // splitting left one new free block of size 10 at start 50
    assert_eq!(report.free_blocks.len(), 3);
    assert!(report.free_blocks.contains(&Block { start: 50, size: 10 }));
    assert!(report.free_blocks.contains(&Block { start: 0, size: 10 }));
    assert!(report.free_blocks.contains(&Block { start: 60, size: 100 }));
}

#[test]
fn adjacent_free_blocks_are_not_merged() {
    let mut m = MemoryManager::with_capacity(100);
    let id0 = m.insert(30, b"x").unwrap();
    let id1 = m.insert(30, b"y").unwrap();
    m.delete(id0).unwrap();
    m.delete(id1).unwrap();
    // [0, 30) and [30, 60) are spatially adjacent but stay separate
    let report = m.dump();
    assert_eq!(report.free_blocks.len(), 3);
    assert!(report.free_blocks.contains(&Block { start: 0, size: 30 }));
    assert!(report.free_blocks.contains(&Block { start: 30, size: 30 }));
    assert!(report.free_blocks.contains(&Block { start: 60, size: 40 }));
    // 50 bytes would fit the sum of the two adjacent blocks, but no
    // single free block holds them: the allocation must fail
    assert_eq!(m.insert(50, b"z"), None);
    assert_eq!(live_total(&m), 100);
}

#[test]
fn round_trip_returns_data_with_padding() {
    let mut m = MemoryManager::with_capacity(100);
    let id = m.insert(5, b"abc").unwrap();
    assert_eq!(m.find(id).unwrap(), vec![97, 98, 99, 0, 0]);
    assert_eq!(m.read(id).unwrap(), vec![97, 98, 99, 0, 0]);
}

#[test]
fn update_at_the_boundary() {
    let mut m = MemoryManager::with_capacity(100);
    let id = m.insert(3, b"abc").unwrap();
    // new data of exactly the block's size succeeds
    assert_eq!(m.update(id, b"xyz"), Ok(()));
    assert_eq!(m.find(id).unwrap(), b"xyz".to_vec());
    // one byte more is too large and leaves the bytes unchanged
    assert_eq!(m.update(id, b"wxyz"), Err(MemError::TooLarge));
    assert_eq!(m.find(id).unwrap(), b"xyz".to_vec());
}

#[test]
fn update_shorter_data_keeps_the_tail() {
    let mut m = MemoryManager::with_capacity(100);
    let id = m.insert(4, b"abcd").unwrap();
    assert_eq!(m.update(id, b"Z"), Ok(()));
    assert_eq!(m.find(id).unwrap(), b"Zbcd".to_vec());
}

#[test]
fn unknown_ids_are_reported_not_fatal() {
    let mut m = MemoryManager::with_capacity(100);
    assert_eq!(m.delete(0), Err(MemError::NotFound));
    assert_eq!(m.find(0), None);
    assert_eq!(m.read(0), Err(MemError::NotFound));
    assert_eq!(m.update(0, b"z"), Err(MemError::NotFound));
    let id = m.insert(4, b"data").unwrap();
    m.delete(id).unwrap();
    // a freed id behaves like one never handed out
    assert_eq!(m.delete(id), Err(MemError::NotFound));
    assert_eq!(m.find(id), None);
    assert_eq!(m.read(id), Err(MemError::NotFound));
    assert_eq!(m.update(id, b"d"), Err(MemError::NotFound));
}

#[test]
fn ids_increase_and_are_never_reused() {
    let mut m = MemoryManager::with_capacity(100);
    let id0 = m.insert(10, b"a").unwrap();
    let id1 = m.insert(10, b"b").unwrap();
    assert!(id0 < id1);
    m.delete(id0).unwrap();
    let id2 = m.insert(10, b"c").unwrap();
    assert!(id1 < id2);
    assert_eq!((id0, id1, id2), (0, 1, 2));
}

#[test]
fn sizes_always_sum_to_capacity() {
    let mut m = MemoryManager::with_capacity(100);
    assert_eq!(live_total(&m), 100);
    let id = m.insert(33, b"hello").unwrap();
    assert_eq!(live_total(&m), 100);
    assert_eq!(m.insert(200, b""), None);
    assert_eq!(live_total(&m), 100);
    m.delete(id).unwrap();
    assert_eq!(live_total(&m), 100);
    m.insert(50, b"").unwrap();
    m.insert(25, b"").unwrap();
    assert_eq!(live_total(&m), 100);
}

#[test]
fn live_blocks_never_overlap() {
    let mut m = MemoryManager::with_capacity(64);
    let a = m.insert(16, b"a").unwrap();
    let _b = m.insert(8, b"bb").unwrap();
    m.delete(a).unwrap();
    let _c = m.insert(4, b"cc").unwrap();
    let report = m.dump();
    let mut extents: Vec<(usize, usize)> = Vec::new();
    for block in &report.free_blocks {
        extents.push((block.start, block.start + block.size));
    }
    for entry in &report.allocated_blocks {
        extents.push((entry.block.start, entry.block.start + entry.block.size));
    }
    for i in 0..extents.len() {
        for j in 0..extents.len() {
            if i != j {
                let (s1, e1) = extents[i];
                let (s2, e2) = extents[j];
                assert!(e1 <= s2 || e2 <= s1, "extents overlap: {:?} {:?}", (s1, e1), (s2, e2));
            }
        }
    }
}

#[test]
fn failed_allocation_changes_nothing() {
    let mut m = MemoryManager::with_capacity(10);
    assert_eq!(m.insert(11, b""), None);
    // data longer than the requested size is rejected too
    assert_eq!(m.insert(4, b"hello"), None);
    let report = m.dump();
    assert_eq!(report.free_blocks, vec![Block { start: 0, size: 10 }]);
    assert!(report.allocated_blocks.is_empty());
}

#[test]
fn exact_fit_consumes_the_whole_block() {
    let mut m = MemoryManager::with_capacity(20);
    let id0 = m.insert(20, b"full").unwrap();
    assert!(m.dump().free_blocks.is_empty());
    m.delete(id0).unwrap();
    let id1 = m.insert(20, b"again").unwrap();
    assert_eq!(m.dump().allocated_blocks[0].block, Block { start: 0, size: 20 });
    assert_ne!(id0, id1);
}

#[test]
fn dump_orders_free_by_size_and_allocated_by_id() {
    let mut m = MemoryManager::with_capacity(120);
    let id0 = m.insert(40, b"a").unwrap();
    let id1 = m.insert(10, b"b").unwrap();
    let _id2 = m.insert(30, b"c").unwrap();
    m.delete(id0).unwrap();
    m.delete(id1).unwrap();
    // free sizes: 40 (freed), 10 (freed), 40 (tail remainder)
    let report = m.dump();
    let sizes: Vec<usize> = report.free_blocks.iter().map(|block| block.size).collect();
    let mut sorted = sizes.clone();
    sorted.sort();
    assert_eq!(sizes, sorted);
    let ids: Vec<usize> = report.allocated_blocks.iter().map(|entry| entry.id).collect();
    let mut sorted_ids = ids.clone();
    sorted_ids.sort();
    assert_eq!(ids, sorted_ids);
}
