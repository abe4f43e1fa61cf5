use pagestore::bytes::read_u32_at;
use pagestore::cache::Cache;
use pagestore::error::StoreError;
use pagestore::pager::{PAGE_SIZE, Pager};
use pagestore::table_heap::TableHeap;
use pagestore::table_iterator::TableIterator;
use pagestore::table_page::TablePage;

/// A heap over a fresh store: fetch page 0 (zero-filled), format it as the
/// chain's head, unpin it.
fn bootstrap(pool_size: usize) -> TableHeap {
    let mut cache = Cache::new(Pager::new(), pool_size);
    cache.fetch_page(0).unwrap();
    let mut tp = TablePage::new(cache.read_page_bytes(0));
    tp.init(0, u32::MAX);
    let data = tp.into_data();
    cache.write_page_bytes(0, &data);
    assert!(cache.unpin_page(0, true));
    TableHeap::new(cache, 0)
}

#[test]
fn insert_then_get_round_trip() {
    let mut heap = bootstrap(3);
    let tuple = b"hello world".to_vec();
    let (p, s) = heap.insert(&tuple).unwrap();
    assert_eq!(heap.get_tuple(p, s).unwrap(), tuple);
}

#[test]
fn insert_scan_round_trip_thousand_tuples() {
    // 1000 tuples through a pool of three frames; the scan yields all of
    // them, in insertion order, once each.
    let mut heap = bootstrap(3);
    let count = 1000;
    let mut expected: Vec<Vec<u8>> = Vec::new();
    for i in 0..count {
        let msg = format!("Tuple #{}", i);
        let bytes = msg.as_bytes().to_vec();
        heap.insert(&bytes).unwrap();
        expected.push(bytes);
    }
    let mut it = TableIterator::new(&heap, 0);
    let mut seen: Vec<Vec<u8>> = Vec::new();
    while let Some(t) = it.next(&mut heap) {
        seen.push(t);
    }
    assert_eq!(seen.len(), count);
    assert_eq!(seen, expected);
}

#[test]
fn every_rid_reads_back() {
    let mut heap = bootstrap(3);
    let mut rids: Vec<(usize, u16, Vec<u8>)> = Vec::new();
    for i in 0..300 {
        let bytes = format!("record {} with some padding", i).into_bytes();
        let (p, s) = heap.insert(&bytes).unwrap();
        rids.push((p, s, bytes));
    }
    for (p, s, bytes) in rids {
        assert_eq!(heap.get_tuple(p, s).unwrap(), bytes);
    }
}

#[test]
fn oversized_tuple_is_refused() {
    let mut heap = bootstrap(3);
    let max = PAGE_SIZE - 20 - 8;
    assert!(heap.insert(&vec![1u8; max]).is_ok());
    assert!(matches!(heap.insert(&vec![1u8; max + 1]), Err(StoreError::TupleTooLarge)));
}

#[test]
fn chained_extension_links_pages() {
    // 33-byte tuples cost 41 bytes each (tuple plus slot), so a page takes
    // 99 of them; 250 inserts must span at least three pages, every page
    // but the tail pointing at its successor and the tail at nothing.
    let mut heap = bootstrap(3);
    let mut last_page = 0;
    for i in 0..250 {
        let mut t = vec![0u8; 33];
        t[0] = (i % 251) as u8;
        let (p, _) = heap.insert(&t).unwrap();
        assert!(p >= last_page);
        last_page = p;
    }
    assert!(last_page >= 2);
    for pid in 0..=last_page {
        heap.cache.fetch_page(pid).unwrap();
        let data = heap.cache.read_page_bytes(pid);
        assert!(heap.cache.unpin_page(pid, false));
        let next = read_u32_at(&data, 8);
        if pid < last_page {
            assert_eq!(next as usize, pid + 1);
        } else {
            assert_eq!(next, 0);
        }
    }
}

#[test]
fn scan_of_empty_heap_yields_nothing() {
    let mut heap = bootstrap(2);
    let mut it = TableIterator::new(&heap, 0);
    assert!(it.next(&mut heap).is_none());
    // The scan stays exhausted.
    assert!(it.next(&mut heap).is_none());
}

#[test]
fn scan_works_with_minimal_pool() {
    // A single frame is enough for a full scan across several pages.
    let mut heap = bootstrap(1);
    let mut expected: Vec<Vec<u8>> = Vec::new();
    for i in 0..200 {
        let bytes = format!("row-{:04}", i).into_bytes();
        heap.insert(&bytes).unwrap();
        expected.push(bytes);
    }
    let mut it = TableIterator::new(&heap, 0);
    let mut seen: Vec<Vec<u8>> = Vec::new();
    while let Some(t) = it.next(&mut heap) {
        seen.push(t);
    }
    assert_eq!(seen, expected);
}

#[test]
fn scan_tolerates_unrelated_pins() {
    // A caller may hold a pin on a page outside the chain: with one frame
    // still free or evictable, the scan proceeds.
    let mut heap = bootstrap(2);
    let mut expected: Vec<Vec<u8>> = Vec::new();
    for i in 0..5 {
        let bytes = format!("row {}", i).into_bytes();
        heap.insert(&bytes).unwrap();
        expected.push(bytes);
    }
    // Pin a page far outside the chain and keep it pinned during the scan.
    heap.cache.fetch_page(50).unwrap();
    let mut it = TableIterator::new(&heap, 0);
    let mut seen: Vec<Vec<u8>> = Vec::new();
    while let Some(t) = it.next(&mut heap) {
        seen.push(t);
    }
    assert_eq!(seen, expected);
    assert!(heap.cache.unpin_page(50, false));
}

#[test]
fn get_tuple_of_unassigned_slot_is_corrupt() {
    let mut heap = bootstrap(2);
    heap.insert(b"only one").unwrap();
    assert!(matches!(heap.get_tuple(0, 7), Err(StoreError::CorruptPage)));
}

#[test]
fn heap_leaves_no_pins_behind() {
    // Inserts and lookups balance their fetches: afterwards nothing is
    // pinned, so even a pool of one frame can fetch any page.
    let mut heap = bootstrap(1);
    for i in 0..50 {
        let bytes = format!("#{}", i).into_bytes();
        let (p, s) = heap.insert(&bytes).unwrap();
        assert_eq!(heap.get_tuple(p, s).unwrap(), bytes);
    }
    assert!(heap.cache.fetch_page(0).is_ok());
    assert!(heap.cache.unpin_page(0, false));
}

#[test]
fn inserts_fill_earlier_pages_first() {
    // A small tuple that still fits the head page lands there even after
    // the chain has grown.
    let mut heap = bootstrap(3);
    // Nearly fill page 0, leaving a gap for a small tuple but not a big one.
    let (p0, _) = heap.insert(&vec![7u8; 4000]).unwrap();
    assert_eq!(p0, 0);
    // This one cannot fit in the remaining gap: a new page is chained.
    let (p1, _) = heap.insert(&vec![8u8; 100]).unwrap();
    assert_eq!(p1, 1);
    // A tuple small enough for page 0's leftover gap goes back to page 0.
    let (p2, s2) = heap.insert(&vec![9u8; 10]).unwrap();
    assert_eq!(p2, 0);
    assert_eq!(s2, 1);
}
