//! Fixed-size random-access page storage.
//!
//! The pager holds the backing store as a dense image of `PAGE_SIZE`-byte
//! pages, the unit in which the engine does all its storage traffic.  It is
//! the single component behind which the bytes of non-resident pages live;
//! persisting the image to a real file (and loading it back) is left to the
//! embedding program, which only ever moves whole images.

use vstd::prelude::*;
use crate::bytes::copy_bytes;
use crate::error::StoreError;

verus! {

broadcast use vstd::std_specs::vec::axiom_spec_len;

/// Every page holds exactly this many bytes.
pub const PAGE_SIZE: usize = 4096;

/// A page: an identifier plus exactly `PAGE_SIZE` bytes of content.
pub struct Page {
    pub id: usize,
    pub data: Vec<u8>,
}

impl Page {
    /// The page carries exactly `PAGE_SIZE` bytes.
    pub open spec fn wf(self) -> bool {
        self.data@.len() == PAGE_SIZE
    }
}

/// The bytes of a page that has never been written: all zero.
pub open spec fn zero_page() -> Seq<u8> {
    Seq::new(PAGE_SIZE as nat, |i: int| 0u8)
}

/// A fresh all-zero page buffer.
pub fn zero_page_data() -> (r: Vec<u8>)
    ensures
        r@ == zero_page(),
{
    let mut out: Vec<u8> = Vec::new();
    let mut i: usize = 0;
    while i < PAGE_SIZE
        invariant
            i <= PAGE_SIZE,
            out@.len() == i,
            forall|j: int| 0 <= j < i ==> out@[j] == 0u8,
        decreases PAGE_SIZE - i,
    {
        out.push(0u8);
        i = i + 1;
    }
    proof {
        assert(out@ =~= zero_page());
    }
    out
}

/// The backing store: a dense sequence of pages, page `i` at index `i`.
pub struct Pager {
    pages: Vec<Vec<u8>>,
}

impl Pager {
    /// The stored image: the bytes of each page below `page_count`.
    pub closed spec fn view(self) -> Seq<Seq<u8>> {
        self.pages@.map_values(|p: Vec<u8>| p@)
    }

    /// Every stored page holds exactly `PAGE_SIZE` bytes.
    pub closed spec fn wf(self) -> bool {
        forall|i: int| 0 <= i < self.pages@.len() ==> (#[trigger] self.pages@[i])@.len()
            == PAGE_SIZE
    }

    /// The content of page `pid` as far as the store is concerned:
    /// its stored bytes, or all zero for a page never written.
    pub open spec fn page_at(self, pid: int) -> Seq<u8> {
        if 0 <= pid < self@.len() {
            self@[pid]
        } else {
            zero_page()
        }
    }

    /// Every page the store answers for — stored or virtual zero page —
    /// is exactly `PAGE_SIZE` bytes.
    pub proof fn lemma_page_at_len(self, pid: int)
        requires
            self.wf(),
        ensures
            self.page_at(pid).len() == PAGE_SIZE,
    {
    }

    /// An empty store.
    pub fn new() -> (r: Pager)
        ensures
            r.wf(),
            r@.len() == 0,
    {
        Pager { pages: Vec::new() }
    }

    /// Rebuilds a store from a dense page image, page `i` of the image
    /// becoming page `i` of the store.  The embedding program uses this to
    /// hand a loaded file to the engine.
    pub fn from_image(pages: Vec<Vec<u8>>) -> (r: Pager)
        requires
            forall|i: int| 0 <= i < pages@.len() ==> (#[trigger] pages@[i])@.len() == PAGE_SIZE,
        ensures
            r.wf(),
            r@ == pages@.map_values(|p: Vec<u8>| p@),
    {
        Pager { pages }
    }

    /// Surrenders the page image, for the embedding program to persist.
    pub fn into_image(self) -> (r: Vec<Vec<u8>>)
        ensures
            r@.map_values(|p: Vec<u8>| p@) == self@,
    {
        self.pages
    }

    /// How many pages the store holds.
    pub fn page_count(&self) -> (r: usize)
        ensures
            r == self@.len(),
    {
        self.pages.len()
    }

    /// Reads page `page_id`, failing for a page beyond the store's end.
    pub fn read_page(&self, page_id: usize) -> (r: Result<Page, StoreError>)
        requires
            self.wf(),
        ensures
            match r {
                Ok(p) => page_id < self@.len() && p.id == page_id && p.data@ == self@[page_id as int]
                    && p.wf(),
                Err(e) => e == StoreError::PageOutOfRange && page_id >= self@.len(),
            },
    {
        if page_id >= self.pages.len() {
            return Err(StoreError::PageOutOfRange);
        }
        let data = copy_bytes(&self.pages[page_id]);
        Ok(Page { id: page_id, data })
    }

    /// Writes `page` at its id, extending the store with zero pages first
    /// when it ends short of that id.
    pub fn write_page(&mut self, page: &Page)
        requires
            old(self).wf(),
            page.wf(),
        ensures
            final(self).wf(),
            final(self)@.len() == if page.id + 1 > old(self)@.len() {
                page.id + 1
            } else {
                old(self)@.len() as int
            },
            forall|q: int| final(self).page_at(q) == if q == page.id {
                page.data@
            } else {
                old(self).page_at(q)
            },
    {
        while self.pages.len() <= page.id
            invariant
                self.wf(),
                self@.len() >= old(self)@.len(),
                self@.len() <= if page.id + 1 > old(self)@.len() {
                    page.id + 1
                } else {
                    old(self)@.len() as int
                },
                forall|q: int| self.page_at(q) == old(self).page_at(q),
            decreases page.id + 1 - self@.len(),
        {
            let z = zero_page_data();
            let ghost prior = *self;
            self.pages.push(z);
            proof {
                assert(self@ =~= prior@.push(zero_page()));
                assert forall|q: int| self.page_at(q) == prior.page_at(q) by {
                    if 0 <= q < prior@.len() {
                        assert(self.page_at(q) == prior@[q]);
                    } else if q == prior@.len() {
                        assert(self.page_at(q) == zero_page());
                    }
                }
            }
        }
        let data = copy_bytes(&page.data);
        let ghost prior = *self;
        self.pages[page.id] = data;
        proof {
            assert(self@ =~= prior@.update(page.id as int, page.data@));
            assert forall|q: int| self.page_at(q) == if q == page.id {
                page.data@
            } else {
                old(self).page_at(q)
            } by {
                if q != page.id {
                    if 0 <= q < prior@.len() {
                        assert(self.page_at(q) == prior@[q]);
                    }
                }
            }
        }
    }
}

} // verus!
