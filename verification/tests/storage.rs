use pagestore::bytes::{read_u32_at, write_u32_at};
use pagestore::cache::Cache;
use pagestore::error::StoreError;
use pagestore::pager::{PAGE_SIZE, Page, Pager};
use pagestore::replacer::LRUReplacer;
use pagestore::table_page::{HEADER_SIZE, TablePage};

fn zero_page_vec() -> Vec<u8> {
    vec![0u8; PAGE_SIZE]
}

#[test]
fn u32_codec_round_trip() {
    let mut buf = zero_page_vec();
    write_u32_at(&mut buf, 12, 0xDEAD_BEEF);
    assert_eq!(read_u32_at(&buf, 12), 0xDEAD_BEEF);
    // Little-endian byte order, least significant first.
    assert_eq!(buf[12], 0xEF);
    assert_eq!(buf[13], 0xBE);
    assert_eq!(buf[14], 0xAD);
    assert_eq!(buf[15], 0xDE);
    // Neighbouring bytes untouched.
    assert_eq!(buf[11], 0);
    assert_eq!(buf[16], 0);
}

#[test]
fn pager_read_past_end_fails() {
    let pager = Pager::new();
    assert_eq!(pager.page_count(), 0);
    assert!(matches!(pager.read_page(0), Err(StoreError::PageOutOfRange)));
}

#[test]
fn pager_write_extends_with_zero_pages() {
    let mut pager = Pager::new();
    let mut data = zero_page_vec();
    data[100] = 7;
    pager.write_page(&Page { id: 2, data });
    assert_eq!(pager.page_count(), 3);
    let gap = pager.read_page(1).unwrap();
    assert!(gap.data.iter().all(|b| *b == 0));
    let written = pager.read_page(2).unwrap();
    assert_eq!(written.data[100], 7);
}

#[test]
fn replacer_victim_is_least_recently_unpinned() {
    let mut r = LRUReplacer::new();
    r.unpin(3);
    r.unpin(1);
    r.unpin(2);
    r.unpin(1); // already queued: no duplicate
    assert_eq!(r.len(), 3);
    assert_eq!(r.victim(), Some(3));
    assert_eq!(r.victim(), Some(1));
    assert_eq!(r.victim(), Some(2));
    assert_eq!(r.victim(), None);
}

#[test]
fn replacer_pin_withdraws_frame() {
    let mut r = LRUReplacer::new();
    r.unpin(0);
    r.unpin(1);
    r.unpin(2);
    r.pin(1);
    assert!(!r.contains(1));
    assert_eq!(r.victim(), Some(0));
    assert_eq!(r.victim(), Some(2));
    assert_eq!(r.victim(), None);
}

#[test]
fn fetch_zero_fills_fresh_page() {
    let mut cache = Cache::new(Pager::new(), 3);
    cache.fetch_page(0).unwrap();
    let data = cache.read_page_bytes(0);
    assert_eq!(data.len(), PAGE_SIZE);
    assert!(data.iter().all(|b| *b == 0));
    assert!(cache.unpin_page(0, false));
}

#[test]
fn bootstrap_first_page() {
    // Pool of three frames over an empty store: fetching page 0 succeeds by
    // materializing zeros; after formatting, the header reads back.
    let mut cache = Cache::new(Pager::new(), 3);
    cache.fetch_page(0).unwrap();
    let mut tp = TablePage::new(cache.read_page_bytes(0));
    tp.init(0, u32::MAX);
    let data = tp.into_data();
    cache.write_page_bytes(0, &data);
    assert!(cache.unpin_page(0, true));
    cache.flush_page(0).unwrap();

    cache.fetch_page(0).unwrap();
    let back = cache.read_page_bytes(0);
    assert!(cache.unpin_page(0, false));
    assert_eq!(read_u32_at(&back, 0), 0); // page id
    assert_eq!(read_u32_at(&back, 4), u32::MAX); // prev page
    assert_eq!(read_u32_at(&back, 8), 0); // next page
    assert_eq!(read_u32_at(&back, 12), PAGE_SIZE as u32); // free-space pointer
    assert_eq!(read_u32_at(&back, 16), 0); // slot count
}

#[test]
fn pool_exhaustion_with_two_pinned_pages() {
    // Pool of one frame: a second distinct page cannot be pinned.
    let mut cache = Cache::new(Pager::new(), 1);
    cache.fetch_page(0).unwrap();
    assert!(matches!(cache.fetch_page(1), Err(StoreError::BufferPoolExhausted)));
    // Unpinning makes the frame evictable, and the fetch succeeds.
    assert!(cache.unpin_page(0, false));
    cache.fetch_page(1).unwrap();
    assert!(cache.unpin_page(1, false));
}

#[test]
fn exhaustion_reported_promptly_even_when_resident() {
    // Pool of two frames, both pinned: only already-resident pages can
    // still be fetched.
    let mut cache = Cache::new(Pager::new(), 2);
    cache.fetch_page(0).unwrap();
    cache.fetch_page(1).unwrap();
    assert!(matches!(cache.fetch_page(2), Err(StoreError::BufferPoolExhausted)));
    // A hit on a pinned page still works.
    cache.fetch_page(0).unwrap();
    assert!(cache.unpin_page(0, false));
    assert!(cache.unpin_page(0, false));
    assert!(cache.unpin_page(1, false));
}

#[test]
fn eviction_writes_back_dirty_page() {
    // Pool of two frames.  Touch pages 0 and 1, unpin both, then fetch a
    // third page to force the least recently unpinned frame out.  The
    // evicted page reads back with its last written bytes.
    let mut cache = Cache::new(Pager::new(), 2);

    cache.fetch_page(0).unwrap();
    let mut a = cache.read_page_bytes(0);
    a[0] = 0xAA;
    a[4095] = 0x55;
    cache.write_page_bytes(0, &a);
    assert!(cache.unpin_page(0, true));

    cache.fetch_page(1).unwrap();
    let mut b = cache.read_page_bytes(1);
    b[7] = 0x77;
    cache.write_page_bytes(1, &b);
    assert!(cache.unpin_page(1, true));

    cache.fetch_page(2).unwrap();
    assert!(cache.unpin_page(2, false));

    cache.fetch_page(0).unwrap();
    let back = cache.read_page_bytes(0);
    assert!(cache.unpin_page(0, false));
    assert_eq!(back[0], 0xAA);
    assert_eq!(back[4095], 0x55);
    assert_eq!(back[7], 0);
}

#[test]
fn flush_of_non_resident_page_is_a_no_op() {
    let mut cache = Cache::new(Pager::new(), 2);
    assert!(cache.flush_page(99).is_ok());
}

#[test]
fn unpin_of_non_resident_page_returns_false() {
    let mut cache = Cache::new(Pager::new(), 2);
    assert!(!cache.unpin_page(5, false));
}

#[test]
fn unpin_balances_fetches_and_no_more() {
    // After N fetches and N matching unpins the pin count is back to zero:
    // one more unpin is refused.
    let mut cache = Cache::new(Pager::new(), 2);
    cache.fetch_page(0).unwrap();
    cache.fetch_page(0).unwrap();
    cache.fetch_page(0).unwrap();
    assert!(cache.unpin_page(0, false));
    assert!(cache.unpin_page(0, false));
    assert!(cache.unpin_page(0, false));
    assert!(!cache.unpin_page(0, false));
}

#[test]
fn pinned_frames_are_never_victims() {
    // Pool of two: pin page 0 and keep it pinned; pages 1 and 2 must share
    // the other frame, and page 0 stays resident throughout.
    let mut cache = Cache::new(Pager::new(), 2);
    cache.fetch_page(0).unwrap();
    let mut marked = cache.read_page_bytes(0);
    marked[1] = 9;
    cache.write_page_bytes(0, &marked);

    cache.fetch_page(1).unwrap();
    assert!(cache.unpin_page(1, false));
    cache.fetch_page(2).unwrap();
    assert!(cache.unpin_page(2, false));

    // Page 0 was pinned the whole time: its bytes are still in memory.
    let still = cache.read_page_bytes(0);
    assert_eq!(still[1], 9);
    assert!(cache.unpin_page(0, true));
}

#[test]
fn page_insert_boundary_sizes() {
    // A fresh page takes a tuple of PAGE_SIZE - HEADER_SIZE - 8 bytes, and
    // nothing one byte larger.
    let max = PAGE_SIZE - HEADER_SIZE - 8;

    let mut tp = TablePage::new(vec![0u8; PAGE_SIZE]);
    tp.init(0, u32::MAX);
    let big = vec![0xABu8; max];
    assert_eq!(tp.insert_tuple(&big), Some(0));
    assert_eq!(tp.get_tuple(0).unwrap(), big);

    let mut tp2 = TablePage::new(vec![0u8; PAGE_SIZE]);
    tp2.init(0, u32::MAX);
    let too_big = vec![0xABu8; max + 1];
    assert_eq!(tp2.insert_tuple(&too_big), None);
}

#[test]
fn page_slots_are_append_only() {
    let mut tp = TablePage::new(vec![0u8; PAGE_SIZE]);
    tp.init(3, 2);
    assert_eq!(tp.insert_tuple(b"alpha"), Some(0));
    assert_eq!(tp.insert_tuple(b"beta"), Some(1));
    assert_eq!(tp.insert_tuple(b""), Some(2));
    assert_eq!(tp.get_slot_count(), 3);
    assert_eq!(tp.get_tuple(0).unwrap(), b"alpha");
    assert_eq!(tp.get_tuple(1).unwrap(), b"beta");
    assert_eq!(tp.get_tuple(2).unwrap(), b"");
    assert!(tp.get_tuple(3).is_none());
}

#[test]
fn page_next_pointer() {
    let mut tp = TablePage::new(vec![0u8; PAGE_SIZE]);
    tp.init(0, u32::MAX);
    assert_eq!(tp.get_next_page_id(), None);
    tp.set_next_page_id(1);
    assert_eq!(tp.get_next_page_id(), Some(1));
}
