//! The slotted page: the on-page layout of a table's tuples.
//!
//! A slotted page has two regions growing toward each other: the header and
//! slot array grow down from the top, the tuple data grows up from the
//! bottom.  The header (20 bytes of little-endian 32-bit words) records the
//! page's own id, its neighbours in the heap chain, the free-space pointer
//! where tuple data begins, and the slot count.  Each slot is 8 bytes:
//! tuple offset and tuple length.  Slots are append-only: a slot, once
//! assigned, is never reassigned, and tuple bytes are never moved.
//!
//! The spec functions over `Seq<u8>` are the single source of truth for the
//! layout; [`wf_page`] is the page invariant, and [`tuples_of`] is the page
//! read as a sequence of tuples.

use vstd::prelude::*;
use crate::bytes::{copy_range, le32_at, read_u32_at, write_bytes_at, write_u32_at};
use crate::pager::PAGE_SIZE;

verus! {

/// Bytes taken by the page header.
pub const HEADER_SIZE: usize = 20;

pub const SLOT_SIZE: usize = 8;

pub const OFFSET_PAGE_ID: usize = 0;

pub const OFFSET_PREV_PAGE_ID: usize = 4;

pub const OFFSET_NEXT_PAGE_ID: usize = 8;

pub const OFFSET_FREE_SPACE: usize = 12;

pub const OFFSET_SLOT_COUNT: usize = 16;

/// The page's own id, as recorded in its header.
pub open spec fn page_id_of(b: Seq<u8>) -> int {
    le32_at(b, OFFSET_PAGE_ID as int)
}

/// The previous page in the chain (all-ones marks the head).
pub open spec fn prev_of(b: Seq<u8>) -> int {
    le32_at(b, OFFSET_PREV_PAGE_ID as int)
}

/// The next page in the chain, 0 meaning none.
pub open spec fn next_of(b: Seq<u8>) -> int {
    le32_at(b, OFFSET_NEXT_PAGE_ID as int)
}

/// The byte offset where the tuple-data region begins.
pub open spec fn free_ptr_of(b: Seq<u8>) -> int {
    le32_at(b, OFFSET_FREE_SPACE as int)
}

/// How many slots the page has allocated.
pub open spec fn slot_count_of(b: Seq<u8>) -> int {
    le32_at(b, OFFSET_SLOT_COUNT as int)
}

/// The recorded byte offset of tuple `i`.
pub open spec fn slot_offset_of(b: Seq<u8>, i: int) -> int {
    le32_at(b, HEADER_SIZE + SLOT_SIZE * i)
}

/// The recorded byte length of tuple `i`.
pub open spec fn slot_len_of(b: Seq<u8>, i: int) -> int {
    le32_at(b, HEADER_SIZE + SLOT_SIZE * i + 4)
}

/// The bytes of tuple `i`.
pub open spec fn tuple_at(b: Seq<u8>, i: int) -> Seq<u8> {
    b.subrange(slot_offset_of(b, i), slot_offset_of(b, i) + slot_len_of(b, i))
}

/// The page read as its sequence of tuples, slot order.
pub open spec fn tuples_of(b: Seq<u8>) -> Seq<Seq<u8>> {
    Seq::new(slot_count_of(b) as nat, |i: int| tuple_at(b, i))
}

/// The slotted-page invariant: the slot array ends at or before the
/// free-space pointer, which never passes the page's end, and every slot's
/// tuple lies between the free-space pointer and the page's end.
pub open spec fn wf_page(b: Seq<u8>) -> bool {
    &&& b.len() == PAGE_SIZE
    &&& HEADER_SIZE + slot_count_of(b) * 8 <= free_ptr_of(b) <= PAGE_SIZE
    &&& forall|i: int|
        0 <= i < slot_count_of(b) ==> free_ptr_of(b) <= #[trigger] slot_offset_of(b, i)
            && slot_offset_of(b, i) + slot_len_of(b, i) <= PAGE_SIZE
}

/// A record id `s` that can be read back from page bytes `b`: the slot is
/// assigned, its entry lies inside the page, and so do the tuple bytes it
/// records.
pub open spec fn rid_ok(b: Seq<u8>, s: int) -> bool {
    &&& 0 <= s < slot_count_of(b)
    &&& HEADER_SIZE + SLOT_SIZE * s + SLOT_SIZE <= PAGE_SIZE
    &&& slot_offset_of(b, s) + slot_len_of(b, s) <= PAGE_SIZE
}

/// On a consistent page, every assigned slot can be read back.
pub proof fn lemma_wf_rid_ok(b: Seq<u8>, s: int)
    requires
        wf_page(b),
        0 <= s < slot_count_of(b),
    ensures
        rid_ok(b, s),
{
}

/// Law: on a consistent page the header and the slot array never overrun
/// the free-space pointer, which never overruns the page.
pub proof fn lemma_slot_array_bounded(b: Seq<u8>)
    requires
        wf_page(b),
    ensures
        HEADER_SIZE + slot_count_of(b) * 8 <= free_ptr_of(b),
        free_ptr_of(b) <= PAGE_SIZE,
        0 <= slot_count_of(b) <= 509,
{
}

/// Law: on a consistent page every slot's tuple lies wholly inside the
/// page, beyond the slot array.
pub proof fn lemma_slots_in_bounds(b: Seq<u8>, i: int)
    requires
        wf_page(b),
        0 <= i < slot_count_of(b),
    ensures
        HEADER_SIZE + slot_count_of(b) * 8 <= slot_offset_of(b, i),
        slot_offset_of(b, i) + slot_len_of(b, i) <= PAGE_SIZE,
{
}

/// A view over one page's bytes, laid out as a slotted page.
pub struct TablePage {
    data: Vec<u8>,
}

impl TablePage {
    /// The underlying page bytes.
    pub closed spec fn view(self) -> Seq<u8> {
        self.data@
    }

    /// Wraps a page buffer.
    pub fn new(data: Vec<u8>) -> (r: TablePage)
        ensures
            r@ == data@,
    {
        TablePage { data }
    }

    /// Surrenders the page buffer.
    pub fn into_data(self) -> (r: Vec<u8>)
        ensures
            r@ == self@,
    {
        self.data
    }

    /// Formats the buffer as a fresh, empty slotted page: no next page, the
    /// free-space pointer at the page's end, no slots.
    pub fn init(&mut self, page_id: u32, prev_id: u32)
        requires
            old(self)@.len() == PAGE_SIZE,
        ensures
            wf_page(final(self)@),
            page_id_of(final(self)@) == page_id,
            prev_of(final(self)@) == prev_id,
            next_of(final(self)@) == 0,
            free_ptr_of(final(self)@) == PAGE_SIZE,
            slot_count_of(final(self)@) == 0,
            tuples_of(final(self)@) == Seq::<Seq<u8>>::empty(),
            forall|i: int|
                HEADER_SIZE <= i < PAGE_SIZE ==> final(self)@[i] == old(self)@[i],
    {
        write_u32_at(&mut self.data, OFFSET_PAGE_ID, page_id);
        let ghost s1 = self.data@;
        write_u32_at(&mut self.data, OFFSET_PREV_PAGE_ID, prev_id);
        let ghost s2 = self.data@;
        write_u32_at(&mut self.data, OFFSET_NEXT_PAGE_ID, 0);
        let ghost s3 = self.data@;
        write_u32_at(&mut self.data, OFFSET_FREE_SPACE, PAGE_SIZE as u32);
        let ghost s4 = self.data@;
        write_u32_at(&mut self.data, OFFSET_SLOT_COUNT, 0);
        proof {
            assert(tuples_of(self.data@) =~= Seq::<Seq<u8>>::empty());
            // Only the 20 header bytes are written.
            assert forall|i: int| HEADER_SIZE <= i < PAGE_SIZE implies self.data@[i] == old(
                self,
            )@[i] by {
                assert(s1[i] == old(self)@[i]);
                assert(s2[i] == s1[i]);
                assert(s3[i] == s2[i]);
                assert(s4[i] == s3[i]);
                assert(self.data@[i] == s4[i]);
            }
        }
    }

    /// The id of the next page in the chain, `None` when the header says 0.
    pub fn get_next_page_id(&self) -> (r: Option<u32>)
        requires
            self@.len() == PAGE_SIZE,
        ensures
            match r {
                Some(id) => next_of(self@) == id && id != 0,
                None => next_of(self@) == 0,
            },
    {
        let id = read_u32_at(&self.data, OFFSET_NEXT_PAGE_ID);
        if id == 0 {
            None
        } else {
            Some(id)
        }
    }

    /// Points the chain at `id`, touching nothing but the next-page field.
    pub fn set_next_page_id(&mut self, id: u32)
        requires
            old(self)@.len() == PAGE_SIZE,
        ensures
            final(self)@.len() == PAGE_SIZE,
            next_of(final(self)@) == id,
            page_id_of(final(self)@) == page_id_of(old(self)@),
            prev_of(final(self)@) == prev_of(old(self)@),
            free_ptr_of(final(self)@) == free_ptr_of(old(self)@),
            slot_count_of(final(self)@) == slot_count_of(old(self)@),
            forall|i: int|
                0 <= i < PAGE_SIZE && !(OFFSET_NEXT_PAGE_ID <= i < OFFSET_NEXT_PAGE_ID + 4)
                    ==> final(self)@[i] == old(self)@[i],
            wf_page(old(self)@) ==> wf_page(final(self)@) && tuples_of(final(self)@) == tuples_of(
                old(self)@,
            ),
    {
        write_u32_at(&mut self.data, OFFSET_NEXT_PAGE_ID, id);
        proof {
            let pre = old(self)@;
            let post = self.data@;
            if wf_page(pre) {
                assert forall|i: int| 0 <= i < slot_count_of(post) implies slot_offset_of(post, i)
                    == slot_offset_of(pre, i) && slot_len_of(post, i) == slot_len_of(pre, i)
                    && free_ptr_of(post) <= slot_offset_of(post, i) && slot_offset_of(post, i)
                    + slot_len_of(post, i) <= PAGE_SIZE by {
                    assert(slot_offset_of(pre, i) >= free_ptr_of(pre));
                }
                assert(wf_page(post));
                assert forall|i: int| 0 <= i < slot_count_of(post) implies tuple_at(post, i)
                    == tuple_at(pre, i) by {
                    assert(slot_offset_of(pre, i) >= free_ptr_of(pre) >= HEADER_SIZE);
                    assert(tuple_at(post, i) =~= tuple_at(pre, i));
                }
                assert(tuples_of(post) =~= tuples_of(pre));
            }
        }
    }

    /// How many slots the page has allocated.
    pub fn get_slot_count(&self) -> (r: u32)
        requires
            self@.len() == PAGE_SIZE,
        ensures
            r == slot_count_of(self@),
    {
        read_u32_at(&self.data, OFFSET_SLOT_COUNT)
    }

    /// Appends `tuple` to the page: data copied just below the old
    /// free-space pointer, a new slot recording it, the slot count bumped.
    /// Returns the new slot's id, or `None` — leaving the page untouched —
    /// when tuple plus slot would not fit in the gap between the slot array
    /// and the free-space pointer.
    pub fn insert_tuple(&mut self, tuple: &[u8]) -> (r: Option<u16>)
        requires
            wf_page(old(self)@),
        ensures
            wf_page(final(self)@),
            page_id_of(final(self)@) == page_id_of(old(self)@),
            prev_of(final(self)@) == prev_of(old(self)@),
            next_of(final(self)@) == next_of(old(self)@),
            match r {
                Some(sid) => {
                    &&& tuple@.len() + 8 <= free_ptr_of(old(self)@) - (HEADER_SIZE
                        + slot_count_of(old(self)@) * 8)
                    &&& sid == slot_count_of(old(self)@)
                    &&& slot_count_of(final(self)@) == slot_count_of(old(self)@) + 1
                    &&& free_ptr_of(final(self)@) == free_ptr_of(old(self)@) - tuple@.len()
                    &&& tuples_of(final(self)@) == tuples_of(old(self)@).push(tuple@)
                    // The new slot entry records where the tuple's bytes went
                    // and how long they are ...
                    &&& slot_offset_of(final(self)@, slot_count_of(old(self)@)) == free_ptr_of(
                        old(self)@,
                    ) - tuple@.len()
                    &&& slot_len_of(final(self)@, slot_count_of(old(self)@)) == tuple@.len()
                    // ... the tuple's bytes sit just below the old free-space
                    // pointer ...
                    &&& final(self)@.subrange(
                        free_ptr_of(old(self)@) - tuple@.len(),
                        free_ptr_of(old(self)@),
                    ) == tuple@
                    // ... the old slot entries' bytes stay ...
                    &&& forall|i: int|
                        0 <= i < slot_count_of(old(self)@) ==> #[trigger] slot_offset_of(
                            final(self)@,
                            i,
                        ) == slot_offset_of(old(self)@, i) && slot_len_of(final(self)@, i)
                            == slot_len_of(old(self)@, i)
                    // ... and no byte outside the two header fields, the new
                    // slot entry, and the tuple's region changes.
                    &&& forall|j: int|
                        0 <= j < PAGE_SIZE && !(OFFSET_FREE_SPACE <= j < HEADER_SIZE) && !(
                        HEADER_SIZE + 8 * slot_count_of(old(self)@) <= j < HEADER_SIZE + 8
                            * slot_count_of(old(self)@) + 8) && !(free_ptr_of(old(self)@)
                            - tuple@.len() <= j < free_ptr_of(old(self)@)) ==> final(self)@[j]
                            == old(self)@[j]
                },
                None => {
                    &&& final(self)@ == old(self)@
                    &&& tuple@.len() + 8 > free_ptr_of(old(self)@) - (HEADER_SIZE
                        + slot_count_of(old(self)@) * 8)
                },
            },
    {
        let size = tuple.len();
        let free_space_ptr = read_u32_at(&self.data, OFFSET_FREE_SPACE) as usize;
        let slot_count = read_u32_at(&self.data, OFFSET_SLOT_COUNT) as usize;
        proof {
            lemma_slot_array_bounded(old(self)@);
        }
        // Where the slot array currently ends.
        let slots_end = HEADER_SIZE + slot_count * SLOT_SIZE;
        // The gap between the slot array and the tuple data.
        let available = free_space_ptr - slots_end;
        if available < SLOT_SIZE || size > available - SLOT_SIZE {
            return None;
        }
        let ghost pre = old(self)@;
        // Tuple data moves the free-space pointer down ...
        let new_free_ptr = free_space_ptr - size;
        write_u32_at(&mut self.data, OFFSET_FREE_SPACE, new_free_ptr as u32);
        let ghost s1 = self.data@;
        write_bytes_at(&mut self.data, new_free_ptr, tuple);
        let ghost s2 = self.data@;
        // ... the new slot is recorded at the slot array's end ...
        write_u32_at(&mut self.data, slots_end, new_free_ptr as u32);
        let ghost s3 = self.data@;
        write_u32_at(&mut self.data, slots_end + 4, size as u32);
        let ghost s4 = self.data@;
        // ... and the slot count grows by one.
        write_u32_at(&mut self.data, OFFSET_SLOT_COUNT, (slot_count + 1) as u32);
        proof {
            let post = self.data@;
            let sc = slot_count as int;
            let fsp = free_space_ptr as int;
            let nfp = new_free_ptr as int;
            // Bytes below the old free-space pointer and past the new slot
            // are exactly as they were.
            assert forall|j: int|
                0 <= j < PAGE_SIZE && !(OFFSET_FREE_SPACE <= j < HEADER_SIZE) && !(HEADER_SIZE + 8
                    * sc <= j < HEADER_SIZE + 8 * sc + 8) && !(nfp <= j < fsp) implies post[j]
                == pre[j] by {
                assert(s1[j] == pre[j]);
                assert(s2[j] == s1[j]);
                assert(s3[j] == s2[j]);
                assert(s4[j] == s3[j]);
            }
            // Header fields land where they should.
            assert(page_id_of(post) == page_id_of(pre));
            assert(prev_of(post) == prev_of(pre));
            assert(next_of(post) == next_of(pre));
            assert(free_ptr_of(post) == nfp) by {
                assert(le32_at(s1, OFFSET_FREE_SPACE as int) == new_free_ptr as u32);
                assert(s2[12] == s1[12] && s2[13] == s1[13] && s2[14] == s1[14] && s2[15]
                    == s1[15]);
                assert(s3[12] == s2[12] && s3[13] == s2[13] && s3[14] == s2[14] && s3[15]
                    == s2[15]);
                assert(s4[12] == s3[12] && s4[13] == s3[13] && s4[14] == s3[14] && s4[15]
                    == s3[15]);
                assert(post[12] == s4[12] && post[13] == s4[13] && post[14] == s4[14] && post[15]
                    == s4[15]);
            }
            assert(slot_count_of(post) == sc + 1);
            // The new slot records the tuple's place and length.
            assert(slot_offset_of(post, sc) == nfp && slot_len_of(post, sc) == size) by {
                assert(le32_at(s3, HEADER_SIZE + 8 * sc) == new_free_ptr as u32);
                assert(le32_at(s4, HEADER_SIZE + 8 * sc + 4) == size as u32);
                assert forall|j: int|
                    HEADER_SIZE + 8 * sc <= j < HEADER_SIZE + 8 * sc + 4 implies post[j]
                    == s3[j] by {
                    assert(s4[j] == s3[j]);
                }
                assert forall|j: int|
                    HEADER_SIZE + 8 * sc + 4 <= j < HEADER_SIZE + 8 * sc + 8 implies post[j]
                    == s4[j] by {}
            }
            // The old slots and their tuples are untouched.
            assert forall|i: int| 0 <= i < sc implies slot_offset_of(post, i) == slot_offset_of(
                pre,
                i,
            ) && slot_len_of(post, i) == slot_len_of(pre, i) by {
                lemma_slots_in_bounds(pre, i);
            }
            assert forall|i: int| 0 <= i < sc implies tuple_at(post, i) == tuple_at(pre, i) by {
                lemma_slots_in_bounds(pre, i);
                assert(slot_offset_of(pre, i) >= fsp);
                assert(tuple_at(post, i) =~= tuple_at(pre, i));
            }
            // The new tuple's bytes sit just below the old free-space
            // pointer.
            assert(tuple_at(post, sc) == tuple@) by {
                assert(s2.subrange(nfp, nfp + size as int) == tuple@);
                assert forall|j: int| nfp <= j < nfp + size implies post[j] == s2[j] by {
                    assert(s3[j] == s2[j]);
                    assert(s4[j] == s3[j]);
                }
                assert(tuple_at(post, sc) =~= s2.subrange(nfp, nfp + size as int));
            }
            assert(wf_page(post)) by {
                assert forall|i: int| 0 <= i < slot_count_of(post) implies free_ptr_of(post)
                    <= #[trigger] slot_offset_of(post, i) && slot_offset_of(post, i) + slot_len_of(
                    post,
                    i,
                ) <= PAGE_SIZE by {
                    if i < sc {
                        lemma_slots_in_bounds(pre, i);
                    }
                }
            }
            assert(tuples_of(post) =~= tuples_of(pre).push(tuple@));
        }
        Some(slot_count as u16)
    }

    /// Copies tuple `slot_id` out of the page, or `None` for a slot never
    /// assigned.
    pub fn get_tuple(&self, slot_id: u16) -> (r: Option<Vec<u8>>)
        requires
            wf_page(self@),
        ensures
            match r {
                Some(v) => slot_id < slot_count_of(self@) && v@ == tuple_at(
                    self@,
                    slot_id as int,
                ),
                None => slot_id >= slot_count_of(self@),
            },
    {
        let slot_count = read_u32_at(&self.data, OFFSET_SLOT_COUNT);
        if slot_id as u32 >= slot_count {
            return None;
        }
        proof {
            lemma_slot_array_bounded(self@);
            lemma_slots_in_bounds(self@, slot_id as int);
        }
        let slot_offset = HEADER_SIZE + (slot_id as usize) * SLOT_SIZE;
        let tuple_offset = read_u32_at(&self.data, slot_offset) as usize;
        let tuple_length = read_u32_at(&self.data, slot_offset + 4) as usize;
        Some(copy_range(&self.data, tuple_offset, tuple_offset + tuple_length))
    }
}

} // verus!
