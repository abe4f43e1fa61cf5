//! A forward-only scan over a table heap.
//!
//! The iterator walks the heap's page chain, yielding every tuple once, in
//! page then slot order.  It holds only a position — a page id and a slot
//! id — and pins pages just long enough to read them, so between calls it
//! owns no pool resources.

use vstd::prelude::*;
use crate::bytes::read_u32_at;
use crate::cache::{lemma_page_view_len, lemma_unpinned_page_available};
use crate::table_heap::{TableHeap, lemma_tuples_prefix, lemma_wf_preserved};
use crate::table_page::{
    OFFSET_NEXT_PAGE_ID, OFFSET_SLOT_COUNT, lemma_slot_array_bounded, lemma_wf_rid_ok,
    slot_count_of,
};

verus! {

/// A cursor over a heap's tuples.
pub struct TableIterator {
    current_page_id: usize,
    current_slot_id: u16,
}

impl TableIterator {
    /// The page the cursor stands on.
    pub closed spec fn cur(self) -> int {
        self.current_page_id as int
    }

    /// The slot the cursor stands on within its page.
    pub closed spec fn slot(self) -> int {
        self.current_slot_id as int
    }

    /// The cursor points into `h`'s chain, at an assigned slot or just past
    /// the last one.
    pub open spec fn valid(self, h: TableHeap) -> bool {
        &&& h.first() <= self.cur() <= h.tail_id()
        &&& 0 <= self.slot() <= slot_count_of(h.page(self.cur()))
    }

    /// How many of `h`'s tuples lie before the cursor: exactly the tuples
    /// already yielded when the scan started at the chain's head.
    pub open spec fn pos(self, h: TableHeap) -> int {
        h.tuples_through(self.cur() - 1).len() + self.slot()
    }

    /// A cursor at the first slot of `start_page_id`.
    pub fn new(heap: &TableHeap, start_page_id: usize) -> (r: TableIterator)
        requires
            heap.wf(),
            heap.first() <= start_page_id as int <= heap.tail_id(),
        ensures
            r.valid(*heap),
            r.pos(*heap) == heap.tuples_through(start_page_id as int - 1).len(),
            start_page_id as int == heap.first() ==> r.pos(*heap) == 0,
    {
        let r = TableIterator { current_page_id: start_page_id, current_slot_id: 0 };
        proof {
            assert(heap.chain_ok(start_page_id as int));
            if start_page_id as int == heap.first() {
                assert(heap.tuples_through(start_page_id as int - 1) == Seq::<Seq<u8>>::empty());
            }
        }
        r
    }

    /// Yields the next tuple, or `None` once every tuple has been yielded.
    ///
    /// Scanning from the chain's head therefore yields exactly the heap's
    /// tuples, in order, once each.  The heap — its chain, its tuples, and
    /// the pool's pin counts — is exactly as before.  The scan needs the
    /// chain itself unpinned and, at the start, a free or evictable frame
    /// (or the cursor's page already resident); it maintains that itself:
    /// every page it unpins leaves an evictable frame behind.
    pub fn next(&mut self, heap: &mut TableHeap) -> (r: Option<Vec<u8>>)
        requires
            old(heap).wf(),
            old(heap).chain_unpinned(),
            old(heap).pool().has_available_frame() || old(heap).pool().resident(
                old(self).cur() as usize,
            ),
            old(self).valid(*old(heap)),
        ensures
            final(heap).wf(),
            final(heap).first() == old(heap).first(),
            final(heap).tail_id() == old(heap).tail_id(),
            forall|q: usize|
                final(heap).pool().page_view(q) == old(heap).pool().page_view(q),
            forall|q: usize| final(heap).pool().pins(q) == old(heap).pool().pins(q),
            final(heap).tuples() == old(heap).tuples(),
            final(heap).pool().has_available_frame(),
            final(self).valid(*final(heap)),
            match r {
                Some(v) => {
                    &&& old(self).pos(*old(heap)) < old(heap).tuples().len()
                    &&& v@ == old(heap).tuples()[old(self).pos(*old(heap))]
                    &&& final(self).pos(*final(heap)) == old(self).pos(*old(heap)) + 1
                },
                None => {
                    &&& old(self).pos(*old(heap)) == old(heap).tuples().len()
                    &&& final(self).pos(*final(heap)) == old(self).pos(*old(heap))
                },
            },
    {
        let ghost orig = *old(heap);
        let ghost start_pos = old(self).pos(*old(heap));
        loop
            invariant
                orig == *old(heap),
                heap.wf(),
                heap.first() == orig.first(),
                heap.tail_id() == orig.tail_id(),
                forall|q: usize| heap.pool().page_view(q) == orig.pool().page_view(q),
                forall|q: usize| heap.pool().pins(q) == orig.pool().pins(q),
                orig.chain_unpinned(),
                heap.pool().has_available_frame() || heap.pool().resident(self.cur() as usize),
                heap.pool().num_frames() == orig.pool().num_frames(),
                heap.tuples() == orig.tuples(),
                forall|p: int| heap.tuples_through(p) == orig.tuples_through(p),
                self.valid(*heap),
                self.pos(*heap) == start_pos,
                start_pos == old(self).pos(*old(heap)),
            decreases heap.tail_id() - self.cur(),
        {
            let cur = self.current_page_id;
            let ghost pre = *heap;
            proof {
                assert(heap.chain_ok(cur as int));
                // Chain pages carry no pins, so the fetch has headroom.
                assert(orig.pool().pins(cur) == 0);
                assert(heap.pool().pins(cur) == 0);
            }
            match heap.cache.fetch_page(cur) {
                Ok(_) => {},
                Err(_) => {
                    proof {
                        assert(false);
                    }
                    return None;
                },
            }
            let data = heap.cache.read_page_bytes(cur);
            proof {
                lemma_page_view_len(pre.pool(), cur);
            }
            let slot_count = read_u32_at(&data, OFFSET_SLOT_COUNT);
            let next_ptr = read_u32_at(&data, OFFSET_NEXT_PAGE_ID);
            heap.cache.unpin_page(cur, false);
            proof {
                lemma_wf_preserved(pre, *heap);
            }
            if (self.current_slot_id as u32) < slot_count {
                let slot = self.current_slot_id;
                proof {
                    assert(heap.chain_ok(cur as int));
                    lemma_slot_array_bounded(heap.page(cur as int));
                    lemma_wf_rid_ok(heap.page(cur as int), slot as int);
                    // The page is resident from the fetch above, with the
                    // scan's own pin released again.
                    assert(heap.pool().resident(cur) && heap.pool().pins(cur) == 0) by {
                        assert(orig.pool().pins(cur) == 0);
                    }
                }
                let ghost before_get = *heap;
                match heap.get_tuple(cur, slot) {
                    Ok(v) => {
                        self.current_slot_id = slot + 1;
                        proof {
                            lemma_wf_preserved(before_get, *heap);
                            assert(heap.pool().pins(cur) == 0) by {
                                assert(orig.pool().pins(cur) == 0);
                            }
                            lemma_unpinned_page_available(heap.pool(), cur);
                            assert(heap.tuples_through(cur as int) == heap.tuples_through(
                                cur as int - 1,
                            ) + heap.page_tuples(cur as int));
                            assert(start_pos == heap.tuples_through(cur as int - 1).len()
                                + slot as int);
                            assert(slot_count == slot_count_of(heap.page(cur as int)));
                            assert(heap.page_tuples(cur as int).len() == slot_count_of(
                                heap.page(cur as int),
                            ));
                            assert(start_pos < heap.tuples_through(cur as int).len());
                            lemma_tuples_prefix(*heap, cur as int);
                            assert(heap.tuples()[start_pos] == heap.tuples_through(cur as int)[
                                start_pos]);
                            assert(v@ == heap.page_tuples(cur as int)[slot as int]);
                        }
                        return Some(v);
                    },
                    Err(_) => {
                        proof {
                            // The page is resident and its record id valid:
                            // neither error can arise.
                            assert(before_get.pool().resident(cur));
                            assert(false);
                        }
                        return None;
                    },
                }
            } else {
                if next_ptr == 0 {
                    proof {
                        assert(self.cur() == heap.tail_id());
                        assert(heap.tuples_through(heap.tail_id()) == heap.tuples_through(
                            heap.tail_id() - 1,
                        ) + heap.page_tuples(heap.tail_id()));
                    }
                    return None;
                }
                proof {
                    assert(next_ptr == self.cur() + 1 && self.cur() < heap.tail_id());
                    assert(heap.tuples_through(self.cur()) == heap.tuples_through(self.cur() - 1)
                        + heap.page_tuples(self.cur()));
                }
                self.current_page_id = next_ptr as usize;
                self.current_slot_id = 0;
            }
        }
    }
}

} // verus!
