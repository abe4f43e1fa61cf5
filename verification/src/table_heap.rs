//! The table heap: a table's tuples, stored across a chain of slotted
//! pages linked by their next-page fields.
//!
//! The heap holds the buffer pool and the id of the chain's first page.
//! The chain is dense: page `p`'s successor is page `p + 1`, because the
//! heap extends itself by fetching `current + 1`, which the pool
//! materializes as a zero-filled page.  Insertion walks the chain from the
//! first page, appends the tuple to the first page with room, and extends
//! the chain by one page when even the tail is full.

use vstd::prelude::*;
use crate::bytes::{copy_range, read_u32_at};
use crate::cache::{Cache, lemma_page_view_len, lemma_unpinned_pool_available};
use crate::error::StoreError;
use crate::pager::PAGE_SIZE;
use crate::table_page::{
    HEADER_SIZE, OFFSET_SLOT_COUNT, SLOT_SIZE, TablePage, free_ptr_of, lemma_wf_rid_ok, next_of,
    page_id_of, rid_ok, slot_count_of, tuple_at, tuples_of, wf_page,
};

verus! {

/// The largest tuple any page can ever hold: a fresh page's gap less one
/// slot entry.
pub const MAX_TUPLE_SIZE: usize = 4068;

/// The largest page id the heap will extend to: one below the all-ones
/// u32, which the first page's prev-field uses as a sentinel.
pub const MAX_PAGE_ID: usize = 0xFFFF_FFFE;

/// A table heap over a buffer pool.
pub struct TableHeap {
    /// The buffer pool all page traffic goes through.
    pub cache: Cache,
    /// The id of the chain's first page.
    pub first_page_id: usize,
    /// The id of the chain's last page (ghost: the chain is walked, never
    /// indexed, at run time).
    pub tail: Ghost<usize>,
}

impl TableHeap {
    /// The buffer pool.
    pub open spec fn pool(self) -> Cache {
        self.cache
    }

    /// The first page of the chain.
    pub open spec fn first(self) -> int {
        self.first_page_id as int
    }

    /// The last page of the chain.
    pub open spec fn tail_id(self) -> int {
        self.tail@ as int
    }

    /// The current content of page `p`.
    pub open spec fn page(self, p: int) -> Seq<u8> {
        self.pool().page_view(p as usize)
    }

    /// The tuples of chain page `p`.
    pub open spec fn page_tuples(self, p: int) -> Seq<Seq<u8>> {
        tuples_of(self.page(p))
    }

    /// Page `p` as a link of the chain: consistent, self-identified, and
    /// pointing at `p + 1`, or at nothing when it is the tail.
    pub open spec fn chain_ok(self, p: int) -> bool {
        &&& wf_page(self.page(p))
        &&& page_id_of(self.page(p)) == p
        &&& next_of(self.page(p)) == if p < self.tail_id() {
            p + 1
        } else {
            0
        }
    }

    /// No page of the chain is pinned: the state a heap is in between
    /// operations, since every operation balances its fetches.
    pub open spec fn chain_unpinned(self) -> bool {
        forall|p: usize|
            self.first() <= p as int <= self.tail_id() ==> #[trigger] self.pool().pins(p) == 0
    }

    /// The heap invariant: a consistent pool of at least one frame, and a
    /// dense chain of consistent pages from `first` to `tail`.
    pub open spec fn wf(self) -> bool {
        &&& self.pool().wf()
        &&& self.pool().num_frames() >= 1
        &&& 0 <= self.first() <= self.tail_id() <= MAX_PAGE_ID
        &&& forall|p: int| self.first() <= p <= self.tail_id() ==> #[trigger] self.chain_ok(p)
    }

    /// The tuples of chain pages `first ..= p`, in page then slot order.
    pub open spec fn tuples_through(self, p: int) -> Seq<Seq<u8>>
        decreases p - self.first() + 1,
    {
        if p < self.first() {
            Seq::empty()
        } else {
            self.tuples_through(p - 1) + self.page_tuples(p)
        }
    }

    /// Every tuple in the heap, in chain order.
    pub open spec fn tuples(self) -> Seq<Seq<u8>> {
        self.tuples_through(self.tail_id())
    }

    /// The tuples of chain pages `p ..= tail`, in page then slot order.
    pub open spec fn tuples_from(self, p: int) -> Seq<Seq<u8>>
        decreases self.tail_id() - p + 1,
    {
        if p > self.tail_id() {
            Seq::empty()
        } else {
            self.page_tuples(p) + self.tuples_from(p + 1)
        }
    }

    /// The tuple bytes behind record id `(p, s)`.
    pub open spec fn rid_tuple(self, p: int, s: int) -> Seq<u8> {
        tuple_at(self.page(p), s)
    }

    /// Builds a heap whose chain is the single, already formatted page
    /// `first_page_id`.  The caller must have fetched that page, formatted
    /// it as a table page with no successor, and unpinned it.
    pub fn new(cache: Cache, first_page_id: usize) -> (r: TableHeap)
        requires
            cache.wf(),
            cache.num_frames() >= 1,
            first_page_id <= MAX_PAGE_ID,
            wf_page(cache.page_view(first_page_id)),
            page_id_of(cache.page_view(first_page_id)) == first_page_id,
            next_of(cache.page_view(first_page_id)) == 0,
        ensures
            r.wf(),
            r.pool() == cache,
            r.first() == first_page_id,
            r.tail_id() == first_page_id,
            r.tuples() == tuples_of(cache.page_view(first_page_id)),
    {
        let h = TableHeap { cache, first_page_id, tail: Ghost(first_page_id) };
        proof {
            assert(h.chain_ok(first_page_id as int));
            assert(h.tuples_through(first_page_id as int - 1) == Seq::<Seq<u8>>::empty());
            assert(h.tuples() =~= h.page_tuples(first_page_id as int));
        }
        h
    }

    /// Fetches `page_id` and copies tuple `slot_id` out of it.
    ///
    /// The record id must name a slot the page has assigned, whose recorded
    /// offset and length lie inside the page; anything else reports a
    /// corrupt page.  On a chain page every assigned slot reads back.  The
    /// pool is left exactly as pinned as it was.
    pub fn get_tuple(&mut self, page_id: usize, slot_id: u16) -> (r: Result<Vec<u8>, StoreError>)
        requires
            old(self).wf(),
            old(self).pool().pins(page_id) < usize::MAX,
        ensures
            final(self).wf(),
            final(self).first() == old(self).first(),
            final(self).tail_id() == old(self).tail_id(),
            forall|q: usize| final(self).pool().page_view(q) == old(self).pool().page_view(q),
            forall|q: usize| final(self).pool().pins(q) == old(self).pool().pins(q),
            final(self).tuples() == old(self).tuples(),
            r is Ok ==> final(self).pool().resident(page_id),
            match r {
                Ok(v) => rid_ok(old(self).page(page_id as int), slot_id as int) && v@ == old(
                    self,
                ).rid_tuple(page_id as int, slot_id as int),
                Err(StoreError::CorruptPage) => !rid_ok(
                    old(self).page(page_id as int),
                    slot_id as int,
                ),
                Err(e) => e == StoreError::BufferPoolExhausted && !old(self).pool().resident(
                    page_id,
                ) && !old(self).pool().has_available_frame(),
            },
    {
        let ghost pre = *self;
        match self.cache.fetch_page(page_id) {
            Ok(_) => {},
            Err(e) => {
                proof {
                    lemma_wf_preserved(pre, *self);
                }
                return Err(e);
            },
        }
        let data = self.cache.read_page_bytes(page_id);
        proof {
            lemma_page_view_len(pre.pool(), page_id);
        }
        let slot_count = read_u32_at(&data, OFFSET_SLOT_COUNT);
        let mut result: Result<Vec<u8>, StoreError> = Err(StoreError::CorruptPage);
        if (slot_id as u32) < slot_count {
            let slot_offset = HEADER_SIZE + (slot_id as usize) * SLOT_SIZE;
            if slot_offset + SLOT_SIZE <= PAGE_SIZE {
                let tuple_offset = read_u32_at(&data, slot_offset) as usize;
                let tuple_length = read_u32_at(&data, slot_offset + 4) as usize;
                if tuple_offset <= PAGE_SIZE && tuple_length <= PAGE_SIZE && tuple_offset
                    + tuple_length <= PAGE_SIZE {
                    result = Ok(copy_range(&data, tuple_offset, tuple_offset + tuple_length));
                }
            }
        }
        self.cache.unpin_page(page_id, false);
        proof {
            lemma_wf_preserved(pre, *self);
        }
        result
    }

    /// Appends `tuple` to the heap: into the first chain page with room,
    /// extending the chain by one fresh page when even the tail is full.
    /// Returns the record id `(page_id, slot_id)` of the new tuple.
    ///
    /// A tuple too large for even an empty page is refused outright.  With
    /// every page unpinned, insertion succeeds while page ids last: pool
    /// exhaustion can only come from pins the caller holds.  An extension
    /// abandoned by such an exhaustion leaves the chain and its tuples
    /// exactly as they were.
    #[verifier::rlimit(100)]
    pub fn insert(&mut self, tuple: &[u8]) -> (r: Result<(usize, u16), StoreError>)
        requires
            old(self).wf(),
            old(self).pool().pins_in_bounds(),
        ensures
            final(self).wf(),
            final(self).first() == old(self).first(),
            final(self).pool().num_frames() == old(self).pool().num_frames(),
            forall|q: usize| final(self).pool().pins(q) == old(self).pool().pins(q),
            match r {
                Ok((p, s)) => {
                    &&& old(self).first() <= p as int <= final(self).tail_id()
                    &&& (final(self).tail_id() == old(self).tail_id() || (p as int == final(self).tail_id() && final(self).tail_id() == old(self).tail_id() + 1))
                    &&& (p as int <= old(self).tail_id() ==> final(self).page_tuples(p as int)
                        == old(self).page_tuples(p as int).push(tuple@) && s == old(
                        self,
                    ).page_tuples(p as int).len())
                    &&& (p as int > old(self).tail_id() ==> final(self).page_tuples(p as int)
                        == Seq::<Seq<u8>>::empty().push(tuple@) && s == 0)
                    &&& forall|q: int|
                        old(self).first() <= q <= old(self).tail_id() && q != p as int ==> final(self).page_tuples(q) == old(self).page_tuples(q)
                    &&& forall|q: int|
                        old(self).first() <= q < p as int ==> !old(self).room_in(
                            q,
                            tuple@.len() as int,
                        )
                    &&& final(self).rid_tuple(p as int, s as int) == tuple@
                    &&& s < slot_count_of(final(self).page(p as int))
                    &&& final(self).tuples() == old(self).tuples().insert(
                        if p as int <= old(self).tail_id() {
                            old(self).tuples_through(p as int).len() as int
                        } else {
                            old(self).tuples().len() as int
                        },
                        tuple@,
                    )
                },
                Err(e) => {
                    &&& old(self).tail_id() <= final(self).tail_id() <= old(self).tail_id() + 1
                    &&& forall|q: int|
                        old(self).first() <= q <= old(self).tail_id() ==> final(self).page_tuples(
                            q,
                        ) == old(self).page_tuples(q)
                    &&& final(self).tuples() == old(self).tuples()
                    &&& (e == StoreError::TupleTooLarge <==> tuple@.len() > MAX_TUPLE_SIZE)
                    &&& (e == StoreError::PageOutOfRange ==> old(self).tail_id() == MAX_PAGE_ID)
                    &&& (e == StoreError::BufferPoolExhausted ==> !old(self).pool().no_pins())
                },
            },
            (tuple@.len() <= MAX_TUPLE_SIZE && old(self).pool().no_pins() && old(self).tail_id()
                < MAX_PAGE_ID) ==> r is Ok,
    {
        let ghost orig = *self;
        if tuple.len() > MAX_TUPLE_SIZE {
            return Err(StoreError::TupleTooLarge);
        }
        let ghost n = tuple@.len() as int;
        proof {
            assert(walk_inv(orig, *self));
        }
        let mut current_page_id = self.first_page_id;
        loop
            invariant
                orig == *old(self),
                self.wf(),
                self.first() == orig.first(),
                self.first() <= current_page_id as int <= self.tail_id(),
                tuple@.len() <= MAX_TUPLE_SIZE,
                n == tuple@.len() as int,
                orig.wf(),
                orig.pool().pins_in_bounds(),
                self.pool().pins_in_bounds(),
                forall|q: usize| self.pool().pins(q) == orig.pool().pins(q),
                self.pool().num_frames() == orig.pool().num_frames(),
                walk_inv(orig, *self),
                self.tail_id() == orig.tail_id() || current_page_id as int == self.tail_id(),
                forall|q: int|
                    orig.first() <= q < current_page_id as int ==> !orig.room_in(q, n),
            decreases self.insert_measure(current_page_id as int, n),
        {
            let ghost iter_pre = *self;
            proof {
                assert(self.chain_ok(current_page_id as int));
            }
            match self.cache.fetch_page(current_page_id) {
                Ok(_) => {},
                Err(e) => {
                    proof {
                        lemma_wf_preserved(iter_pre, *self);
                        lemma_walk_inv_preserved(orig, iter_pre, *self);
                        lemma_insert_err_glue(orig, *self, n);
                        if orig.pool().no_pins() {
                            assert forall|q: usize| iter_pre.pool().pins(q) == 0 by {
                                assert(orig.pool().pins(q) == 0);
                            }
                            lemma_unpinned_pool_available(iter_pre.pool());
                        }
                    }
                    return Err(e);
                },
            }
            let ghost fetched = *self;
            proof {
                lemma_wf_preserved(iter_pre, *self);
                lemma_walk_inv_preserved(orig, iter_pre, *self);
            }
            let data = self.cache.read_page_bytes(current_page_id);
            let mut tp = TablePage::new(data);
            match tp.insert_tuple(tuple) {
                Some(slot_id) => {
                    let new_data = tp.into_data();
                    self.cache.write_page_bytes(current_page_id, &new_data);
                    self.cache.unpin_page(current_page_id, true);
                    proof {
                        lemma_wf_after_page_update(fetched, *self, current_page_id as int);
                        assert forall|q: usize| self.pool().pins(q) == orig.pool().pins(q) by {
                            assert(iter_pre.pool().pins(q) == orig.pool().pins(q));
                        }
                        assert(self.page(current_page_id as int) == new_data@);
                        assert(self.rid_tuple(current_page_id as int, slot_id as int) == tuples_of(
                            new_data@,
                        )[slot_id as int]);
                        if current_page_id as int <= orig.tail_id() {
                            assert(tuples_of(iter_pre.page(current_page_id as int))
                                == orig.page_tuples(current_page_id as int));
                            assert(slot_count_of(iter_pre.page(current_page_id as int))
                                == slot_count_of(orig.page(current_page_id as int)));
                            assert(orig.page_tuples(current_page_id as int).len()
                                == slot_count_of(orig.page(current_page_id as int)));
                        }
                        assert forall|q: int|
                            orig.first() <= q <= orig.tail_id() && q != current_page_id
                                as int implies self.page_tuples(q) == orig.page_tuples(q) by {
                            assert(iter_pre.page(q) == orig.page(q) || tuples_of(iter_pre.page(q))
                                == orig.page_tuples(q));
                        }
                        lemma_insert_tuples_law(orig, *self, current_page_id as int, tuple@);
                    }
                    return Ok((current_page_id, slot_id));
                },
                None => {
                    let next = tp.get_next_page_id();
                    match next {
                        Some(next_id) => {
                            self.cache.unpin_page(current_page_id, false);
                            proof {
                                lemma_wf_preserved(iter_pre, *self);
                                lemma_walk_inv_preserved(orig, iter_pre, *self);
                                assert(!iter_pre.room_in(current_page_id as int, n));
                                assert(next_id == current_page_id as int + 1 && (current_page_id
                                    as int) < self.tail_id());
                                assert(!self.room_in(current_page_id as int, n));
                                assert(!orig.room_in(current_page_id as int, n)) by {
                                    assert(iter_pre.page(current_page_id as int) == orig.page(
                                        current_page_id as int,
                                    ) || (free_ptr_of(iter_pre.page(current_page_id as int))
                                        == free_ptr_of(orig.page(current_page_id as int))
                                        && slot_count_of(iter_pre.page(current_page_id as int))
                                        == slot_count_of(orig.page(current_page_id as int))));
                                }
                            }
                            current_page_id = next_id as usize;
                        },
                        None => {
                            self.cache.unpin_page(current_page_id, false);
                            proof {
                                lemma_wf_preserved(iter_pre, *self);
                                lemma_walk_inv_preserved(orig, iter_pre, *self);
                                assert(!iter_pre.room_in(current_page_id as int, n));
                                // A freshly added tail always has room, so a
                                // full tail is the original one.
                                assert(current_page_id as int == self.tail_id());
                                assert(self.tail_id() == orig.tail_id());
                                assert(!orig.room_in(current_page_id as int, n)) by {
                                    assert(iter_pre.page(current_page_id as int) == orig.page(
                                        current_page_id as int,
                                    ) || (free_ptr_of(iter_pre.page(current_page_id as int))
                                        == free_ptr_of(orig.page(current_page_id as int))
                                        && slot_count_of(iter_pre.page(current_page_id as int))
                                        == slot_count_of(orig.page(current_page_id as int))));
                                }
                            }
                            if current_page_id >= MAX_PAGE_ID {
                                proof {
                                    lemma_insert_err_glue(orig, *self, n);
                                }
                                return Err(StoreError::PageOutOfRange);
                            }
                            let new_page_id = current_page_id + 1;
                            let ghost before_new = *self;
                            match self.cache.fetch_page(new_page_id) {
                                Ok(_) => {},
                                Err(e) => {
                                    proof {
                                        lemma_wf_preserved(before_new, *self);
                                        lemma_walk_inv_preserved(orig, before_new, *self);
                                        lemma_insert_err_glue(orig, *self, n);
                                        if orig.pool().no_pins() {
                                            assert forall|q: usize| before_new.pool().pins(q)
                                                == 0 by {
                                                assert(orig.pool().pins(q) == 0);
                                                assert(iter_pre.pool().pins(q) == 0);
                                            }
                                            lemma_unpinned_pool_available(before_new.pool());
                                        }
                                    }
                                    return Err(e);
                                },
                            }
                            let ndata = self.cache.read_page_bytes(new_page_id);
                            let mut ntp = TablePage::new(ndata);
                            proof {
                                lemma_page_view_len(before_new.pool(), new_page_id);
                            }
                            ntp.init(new_page_id as u32, current_page_id as u32);
                            let ndata2 = ntp.into_data();
                            self.cache.write_page_bytes(new_page_id, &ndata2);
                            self.cache.unpin_page(new_page_id, true);
                            let ghost after_init = *self;
                            proof {
                                // The fresh page lies past the tail: the
                                // chain itself is untouched.
                                assert(new_page_id as int > self.tail_id());
                                assert forall|q: int|
                                    self.first() <= q <= self.tail_id() implies #[trigger] self
                                        .chain_ok(q) by {
                                    assert(before_new.chain_ok(q));
                                    assert(self.page(q) == before_new.page(q));
                                }
                                assert forall|q: int|
                                    orig.first() <= q
                                        <= orig.tail_id() implies #[trigger] self.page(q)
                                    == orig.page(q) by {
                                    assert(before_new.page(q) == orig.page(q));
                                }
                                assert(walk_inv(orig, *self));
                            }
                            match self.cache.fetch_page(current_page_id) {
                                Ok(_) => {},
                                Err(e) => {
                                    proof {
                                        lemma_wf_preserved(after_init, *self);
                                        lemma_walk_inv_preserved(orig, after_init, *self);
                                        lemma_insert_err_glue(orig, *self, n);
                                        if orig.pool().no_pins() {
                                            assert forall|q: usize| after_init.pool().pins(q)
                                                == 0 by {
                                                assert(orig.pool().pins(q) == 0);
                                                assert(iter_pre.pool().pins(q) == 0);
                                                assert(before_new.pool().pins(q) == 0);
                                            }
                                            lemma_unpinned_pool_available(after_init.pool());
                                        }
                                    }
                                    return Err(e);
                                },
                            }
                            let ldata = self.cache.read_page_bytes(current_page_id);
                            let mut ltp = TablePage::new(ldata);
                            proof {
                                assert(after_init.chain_ok(current_page_id as int));
                            }
                            ltp.set_next_page_id(new_page_id as u32);
                            let ldata2 = ltp.into_data();
                            self.cache.write_page_bytes(current_page_id, &ldata2);
                            self.cache.unpin_page(current_page_id, true);
                            self.tail = Ghost(new_page_id);
                            proof {
                                assert forall|q: int|
                                    self.first() <= q <= self.tail_id() implies #[trigger] self
                                        .chain_ok(q) by {
                                    if q == new_page_id as int {
                                        assert(self.page(q) == after_init.page(q));
                                        assert(after_init.page(q) == ndata2@);
                                    } else if q == current_page_id as int {
                                        assert(self.page(q) == ldata2@);
                                    } else {
                                        assert(after_init.chain_ok(q));
                                        assert(self.page(q) == after_init.page(q));
                                    }
                                }
                                assert(self.page_tuples(self.tail_id()) =~= Seq::<
                                    Seq<u8>,
                                >::empty());
                                assert forall|q: int|
                                    orig.first() <= q <= orig.tail_id() implies (#[trigger] self
                                        .page(q) == orig.page(q) || (q == orig.tail_id()
                                        && self.tail_id() == orig.tail_id() + 1 && tuples_of(
                                        self.page(q),
                                    ) == orig.page_tuples(q) && free_ptr_of(self.page(q))
                                        == free_ptr_of(orig.page(q)) && slot_count_of(self.page(q))
                                        == slot_count_of(orig.page(q)))) by {
                                    if q != current_page_id as int {
                                        assert(self.page(q) == after_init.page(q));
                                        assert(after_init.page(q) == orig.page(q));
                                    } else {
                                        assert(self.page(q) == ldata2@);
                                        assert(tuples_of(ldata2@) == tuples_of(after_init.page(q)));
                                        assert(after_init.page(q) == orig.page(q));
                                    }
                                }
                                assert(walk_inv(orig, *self));
                                assert forall|q: usize| self.pool().pins(q) == orig.pool().pins(
                                    q,
                                ) by {
                                    assert(iter_pre.pool().pins(q) == orig.pool().pins(q));
                                }
                                assert(self.room_in(new_page_id as int, n));
                            }
                            current_page_id = new_page_id;
                        },
                    }
                },
            }
        }
    }
}

/// Law: an inserted tuple reads back exactly.  `insert` returning
/// `Ok((p, s))` leaves `rid_tuple(p, s)` equal to the tuple and `s` below
/// page `p`'s slot count; this lemma adds that such a record id passes
/// `get_tuple`'s validation on a consistent heap, so `get_tuple(p, s)`
/// returns exactly the inserted bytes.
pub proof fn lemma_inserted_tuple_reads_back(h: TableHeap, p: int, s: int, t: Seq<u8>)
    requires
        h.wf(),
        h.first() <= p <= h.tail_id(),
        0 <= s < slot_count_of(h.page(p)),
        h.rid_tuple(p, s) == t,
    ensures
        rid_ok(h.page(p), s),
        h.rid_tuple(p, s) == t,
{
    assert(h.chain_ok(p));
    lemma_wf_rid_ok(h.page(p), s);
}

/// At an insertion abandoned mid-walk — the chain and its tuples
/// unchanged, at most one fresh empty page appended — the whole tuple
/// sequence is unchanged too.
proof fn lemma_insert_err_glue(orig: TableHeap, cur: TableHeap, n: int)
    requires
        orig.wf(),
        cur.wf(),
        walk_inv(orig, cur),
    ensures
        cur.tuples() == orig.tuples(),
        forall|q: int|
            orig.first() <= q <= orig.tail_id() ==> #[trigger] cur.page_tuples(q)
                == orig.page_tuples(q),
{
    assert forall|q: int| orig.first() <= q <= orig.tail_id() implies #[trigger] cur.page_tuples(
        q,
    ) == orig.page_tuples(q) by {
        if cur.page(q) == orig.page(q) {
            assert(cur.page_tuples(q) == orig.page_tuples(q));
        }
    }
    lemma_tuples_through_congruence(orig, cur, orig.tail_id());
    if cur.tail_id() == orig.tail_id() + 1 {
        assert(cur.tuples() == cur.tuples_through(orig.tail_id()) + cur.page_tuples(
            cur.tail_id(),
        ));
        assert(cur.tuples() =~= cur.tuples_through(orig.tail_id()));
    }
}

impl TableHeap {
    /// Whether a tuple of `n` bytes, plus its slot entry, fits in the gap
    /// of chain page `p`.
    pub open spec fn room_in(self, p: int, n: int) -> bool {
        n + 8 <= free_ptr_of(self.page(p)) - (HEADER_SIZE + 8 * slot_count_of(self.page(p)))
    }

    /// Termination measure for the insertion walk: pages left to visit,
    /// with credit for one extension of a full tail.
    spec fn insert_measure(self, p: int, n: int) -> int {
        (self.tail_id() - p) * 2 + if self.room_in(p, n) {
            0int
        } else {
            1int
        }
    }
}

/// The state of an insertion walk relative to the heap it started from:
/// the chain may have grown by one fresh empty page, the old tail may have
/// been relinked (its tuples and free space untouched), and every other
/// chain page reads exactly as it did.
spec fn walk_inv(orig: TableHeap, h: TableHeap) -> bool {
    &&& h.first() == orig.first()
    &&& orig.tail_id() <= h.tail_id() <= orig.tail_id() + 1
    &&& forall|q: int|
        orig.first() <= q <= orig.tail_id() ==> (#[trigger] h.page(q) == orig.page(q) || (q
            == orig.tail_id() && h.tail_id() == orig.tail_id() + 1 && tuples_of(h.page(q))
            == orig.page_tuples(q) && free_ptr_of(h.page(q)) == free_ptr_of(orig.page(q))
            && slot_count_of(h.page(q)) == slot_count_of(orig.page(q))))
    &&& h.tail_id() == orig.tail_id() + 1 ==> (h.page_tuples(h.tail_id()) == Seq::<
        Seq<u8>,
    >::empty() && free_ptr_of(h.page(h.tail_id())) == PAGE_SIZE && slot_count_of(
        h.page(h.tail_id()),
    ) == 0)
}

/// The walk state carries across any step that changes no page's content.
proof fn lemma_walk_inv_preserved(orig: TableHeap, pre: TableHeap, post: TableHeap)
    requires
        walk_inv(orig, pre),
        post.first() == pre.first(),
        post.tail_id() == pre.tail_id(),
        forall|q: usize| post.pool().page_view(q) == pre.pool().page_view(q),
    ensures
        walk_inv(orig, post),
    {
    assert forall|q: int| orig.first() <= q <= orig.tail_id() implies (#[trigger] post.page(q)
        == orig.page(q) || (q == orig.tail_id() && post.tail_id() == orig.tail_id() + 1
        && tuples_of(post.page(q)) == orig.page_tuples(q) && free_ptr_of(post.page(q))
        == free_ptr_of(orig.page(q)) && slot_count_of(post.page(q)) == slot_count_of(
        orig.page(q),
    ))) by {
        assert(post.page(q) == pre.page(q));
    }
    if post.tail_id() == orig.tail_id() + 1 {
        assert(post.page(post.tail_id()) == pre.page(pre.tail_id()));
    }
}

/// After exactly one chain page changes content — keeping its identity and
/// its place in the chain — the heap is still consistent and every other
/// chain page reads the same.
proof fn lemma_wf_after_page_update(pre: TableHeap, post: TableHeap, p: int)
    requires
        pre.wf(),
        post.first() == pre.first(),
        post.tail_id() == pre.tail_id(),
        post.pool().wf(),
        post.pool().num_frames() == pre.pool().num_frames(),
        pre.first() <= p <= pre.tail_id(),
        forall|q: usize|
            q as int != p ==> post.pool().page_view(q) == pre.pool().page_view(q),
        wf_page(post.page(p)),
        page_id_of(post.page(p)) == page_id_of(pre.page(p)),
        next_of(post.page(p)) == next_of(pre.page(p)),
    ensures
        post.wf(),
        forall|q: int|
            pre.first() <= q <= pre.tail_id() && q != p ==> post.page_tuples(q)
                == pre.page_tuples(q) && post.page(q) == pre.page(q),
{
    assert forall|q: int| post.first() <= q <= post.tail_id() implies #[trigger] post.chain_ok(
        q,
    ) by {
        assert(pre.chain_ok(q));
        if q != p {
            assert(post.page(q) == pre.page(q));
        }
    }
}

/// Two heaps over the same chain whose pages read the same through `p`
/// agree on the tuples through `p`.
pub proof fn lemma_tuples_through_congruence(pre: TableHeap, post: TableHeap, p: int)
    requires
        pre.first() == post.first(),
        forall|q: int| pre.first() <= q <= p ==> post.page_tuples(q) == pre.page_tuples(q),
    ensures
        post.tuples_through(p) == pre.tuples_through(p),
    decreases p - pre.first() + 1,
{
    if p >= pre.first() {
        lemma_tuples_through_congruence(pre, post, p - 1);
    }
}

/// A heap whose pool changed without touching any page's content (pins,
/// residency, flushes) is still the same heap: consistent, same chain,
/// same tuples.
pub proof fn lemma_wf_preserved(pre: TableHeap, post: TableHeap)
    requires
        pre.wf(),
        post.first() == pre.first(),
        post.tail_id() == pre.tail_id(),
        post.pool().wf(),
        post.pool().num_frames() >= 1,
        forall|q: usize| post.pool().page_view(q) == pre.pool().page_view(q),
    ensures
        post.wf(),
        post.tuples() == pre.tuples(),
        forall|p: int| post.tuples_through(p) == pre.tuples_through(p),
{
    assert forall|p: int| post.first() <= p <= post.tail_id() implies #[trigger] post.chain_ok(
        p,
    ) by {
        assert(pre.chain_ok(p));
        assert(post.page(p) == pre.page(p));
    }
    assert forall|p: int| post.tuples_through(p) == pre.tuples_through(p) by {
        assert forall|q: int| pre.first() <= q <= p implies post.page_tuples(q) == pre.page_tuples(
            q,
        ) by {
            assert(post.page(q) == pre.page(q));
        }
        lemma_tuples_through_congruence(pre, post, p);
    }
}

/// The heap's tuples split at any page boundary: those through `p`, then
/// those from `p + 1` on.
pub proof fn lemma_tuples_split(h: TableHeap, p: int)
    requires
        h.first() - 1 <= p <= h.tail_id(),
    ensures
        h.tuples() == h.tuples_through(p) + h.tuples_from(p + 1),
    decreases h.tail_id() - p,
{
    if p == h.tail_id() {
        assert(h.tuples_from(p + 1) == Seq::<Seq<u8>>::empty());
        assert(h.tuples() =~= h.tuples_through(p) + h.tuples_from(p + 1));
    } else {
        lemma_tuples_split(h, p + 1);
        assert(h.tuples_through(p + 1) == h.tuples_through(p) + h.page_tuples(p + 1));
        assert(h.tuples_from(p + 1) == h.page_tuples(p + 1) + h.tuples_from(p + 2));
        assert(h.tuples() =~= h.tuples_through(p) + h.tuples_from(p + 1));
    }
}

/// Two heaps over the same chain whose pages read the same from `p` on
/// agree on the tuples from `p` on.
pub proof fn lemma_tuples_from_congruence(pre: TableHeap, post: TableHeap, p: int)
    requires
        pre.tail_id() == post.tail_id(),
        forall|q: int| p <= q <= pre.tail_id() ==> post.page_tuples(q) == pre.page_tuples(q),
    ensures
        post.tuples_from(p) == pre.tuples_from(p),
    decreases pre.tail_id() - p + 1,
{
    if p <= pre.tail_id() {
        lemma_tuples_from_congruence(pre, post, p + 1);
    }
}

/// Law: one insertion inserts exactly one tuple into the heap's sequence,
/// at the end of the receiving page's run — at the very end when the chain
/// was extended for it.
proof fn lemma_insert_tuples_law(orig: TableHeap, post: TableHeap, p: int, t: Seq<u8>)
    requires
        post.first() == orig.first(),
        orig.tail_id() <= post.tail_id() <= orig.tail_id() + 1,
        post.tail_id() == orig.tail_id() + 1 ==> p == post.tail_id(),
        orig.first() <= p <= post.tail_id(),
        forall|q: int|
            orig.first() <= q <= orig.tail_id() && q != p ==> post.page_tuples(q)
                == orig.page_tuples(q),
        p <= orig.tail_id() ==> post.page_tuples(p) == orig.page_tuples(p).push(t),
        p > orig.tail_id() ==> post.page_tuples(p) == Seq::<Seq<u8>>::empty().push(t),
    ensures
        post.tuples() == orig.tuples().insert(
            if p <= orig.tail_id() {
                orig.tuples_through(p).len() as int
            } else {
                orig.tuples().len() as int
            },
            t,
        ),
{
    if p <= orig.tail_id() {
        let a = orig.tuples_through(p - 1);
        let b = orig.page_tuples(p);
        let rest = orig.tuples_from(p + 1);
        lemma_tuples_split(orig, p);
        lemma_tuples_split(post, p);
        lemma_tuples_through_congruence(orig, post, p - 1);
        lemma_tuples_from_congruence(orig, post, p + 1);
        assert(orig.tuples_through(p) == a + b);
        assert(post.tuples_through(p) == a + b.push(t));
        let k = (a + b).len() as int;
        assert(orig.tuples().subrange(0, k) =~= a + b);
        assert(orig.tuples().subrange(k, orig.tuples().len() as int) =~= rest);
        assert(post.tuples() =~= orig.tuples().insert(k, t));
    } else {
        lemma_tuples_through_congruence(orig, post, orig.tail_id());
        assert(post.tuples() == post.tuples_through(p - 1) + post.page_tuples(p));
        assert(post.page_tuples(p) =~= seq![t]);
        let n = orig.tuples().len() as int;
        assert(orig.tuples().subrange(0, n) =~= orig.tuples());
        assert(orig.tuples().subrange(n, n) =~= Seq::<Seq<u8>>::empty());
        assert(post.tuples() =~= orig.tuples().insert(n, t));
    }
}

/// The tuples through page `p` are a prefix of the whole heap's tuples.
pub proof fn lemma_tuples_prefix(h: TableHeap, p: int)
    requires
        h.wf(),
        h.first() - 1 <= p <= h.tail_id(),
    ensures
        h.tuples_through(p).len() <= h.tuples().len(),
        forall|i: int|
            0 <= i < h.tuples_through(p).len() ==> h.tuples()[i] == #[trigger] h.tuples_through(
                p,
            )[i],
    decreases h.tail_id() - p,
{
    if p < h.tail_id() {
        lemma_tuples_prefix(h, p + 1);
        assert(h.tuples_through(p + 1) == h.tuples_through(p) + h.page_tuples(p + 1));
        assert forall|i: int| 0 <= i < h.tuples_through(p).len() implies h.tuples()[i]
            == #[trigger] h.tuples_through(p)[i] by {
            assert(h.tuples_through(p + 1)[i] == h.tuples_through(p)[i]);
            assert(h.tuples()[i] == h.tuples_through(p + 1)[i]);
        }
    }
}

} // verus!
