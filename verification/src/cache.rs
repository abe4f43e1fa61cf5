//! The buffer pool: a bounded set of in-memory frames caching pages of the
//! backing store.
//!
//! The pool owns the pager, a fixed array of frames, the page-frame table
//! mapping each resident page id to its frame, the free list of frames that
//! have never held a page, and the LRU replacer holding the evictable
//! frames.  `fetch_page` pins a page into a frame — reading it from the
//! store, or materializing a zero-filled page for an id past the store's
//! end, which is the engine's only way of allocating new pages — and
//! `unpin_page` releases it.  A dirty frame is written back to the store
//! before its frame is reused.
//!
//! The central abstraction is [`Cache::page_view`]: the current content of
//! every page, resident or not.  Fetching, unpinning and flushing never
//! change any page's content; only [`Cache::write_page_bytes`] does.

use std::collections::HashMap;
use vstd::prelude::*;
use crate::error::StoreError;
use crate::pager::{PAGE_SIZE, Page, Pager, zero_page_data};
use crate::replacer::LRUReplacer;
use crate::bytes::copy_bytes;

verus! {

broadcast use vstd::std_specs::vec::axiom_spec_len, vstd::std_specs::hash::group_hash_axioms;

/// A pool slot: at most one page, plus its bookkeeping.
pub struct Frame {
    /// The cached page, or `None` while the frame has never been used.
    pub page: Option<Page>,
    /// Whether the in-memory page differs from the backing store.
    pub is_dirty: bool,
    /// How many outstanding fetches hold this frame.
    pub pin_count: usize,
}

impl Frame {
    /// An empty, clean, unpinned frame.
    pub fn new() -> (r: Frame)
        ensures
            r.page is None,
            !r.is_dirty,
            r.pin_count == 0,
    {
        Frame { page: None, is_dirty: false, pin_count: 0 }
    }
}

/// The buffer pool.
pub struct Cache {
    pager: Pager,
    frames: Vec<Frame>,
    pf_table: HashMap<usize, usize>,
    free_list: Vec<usize>,
    replacer: LRUReplacer,
}

impl Cache {
    /// How many frames the pool was built with.
    pub closed spec fn num_frames(self) -> int {
        self.frames@.len() as int
    }

    /// Whether page `pid` currently sits in some frame.
    pub closed spec fn resident(self, pid: usize) -> bool {
        self.pf_table@.contains_key(pid)
    }

    /// The frame holding page `pid` (meaningful only when resident).
    pub closed spec fn frame_of(self, pid: usize) -> int {
        self.pf_table@[pid] as int
    }

    /// Whether frame `fid` holds a page.
    pub closed spec fn frame_resident(self, fid: int) -> bool {
        self.frames@[fid].page is Some
    }

    /// The id of the page held by frame `fid`.
    pub closed spec fn frame_page_id(self, fid: int) -> usize {
        self.frames@[fid].page->0.id
    }

    /// The bytes held by frame `fid`.
    pub closed spec fn frame_bytes(self, fid: int) -> Seq<u8> {
        self.frames@[fid].page->0.data@
    }

    /// The pin count of frame `fid`.
    pub closed spec fn frame_pins(self, fid: int) -> usize {
        self.frames@[fid].pin_count
    }

    /// The dirty bit of frame `fid`.
    pub closed spec fn frame_dirty(self, fid: int) -> bool {
        self.frames@[fid].is_dirty
    }

    /// Whether frame `fid` is on the free list (never yet used).
    pub closed spec fn in_free_list(self, fid: usize) -> bool {
        self.free_list@.contains(fid)
    }

    /// Whether frame `fid` is queued in the replacer (evictable).
    pub closed spec fn in_replacer(self, fid: usize) -> bool {
        self.replacer@.contains(fid)
    }

    /// The backing store's content for page `pid` (zero past its end).
    pub closed spec fn disk_at(self, pid: int) -> Seq<u8> {
        self.pager.page_at(pid)
    }

    /// The pin count of page `pid`: its frame's count, or 0 when absent.
    pub open spec fn pins(self, pid: usize) -> usize {
        if self.resident(pid) {
            self.frame_pins(self.frame_of(pid))
        } else {
            0
        }
    }

    /// Whether page `pid` is resident and marked modified.
    pub open spec fn dirty(self, pid: usize) -> bool {
        self.resident(pid) && self.frame_dirty(self.frame_of(pid))
    }

    /// The current content of page `pid`: the cached bytes while resident,
    /// the store's bytes otherwise.
    pub open spec fn page_view(self, pid: usize) -> Seq<u8> {
        if self.resident(pid) {
            self.frame_bytes(self.frame_of(pid))
        } else {
            self.disk_at(pid as int)
        }
    }

    /// No page is pinned.
    pub open spec fn no_pins(self) -> bool {
        forall|pid: usize| self.pins(pid) == 0
    }

    /// Every pin count leaves room for one more fetch.
    pub open spec fn pins_in_bounds(self) -> bool {
        forall|pid: usize| self.pins(pid) < usize::MAX
    }

    /// Some frame is empty or evictable, so a miss can be served.
    pub open spec fn has_available_frame(self) -> bool {
        exists|fid: int|
            0 <= fid < self.num_frames() && (!self.frame_resident(fid) || self.frame_pins(fid)
                == 0)
    }

    spec fn frame_ok(self, fid: int) -> bool {
        match self.frames@[fid].page {
            Some(p) => {
                &&& p.data@.len() == PAGE_SIZE
                &&& self.pf_table@.contains_key(p.id)
                &&& self.pf_table@[p.id] == fid as usize
                &&& (!self.frames@[fid].is_dirty ==> p.data@ == self.pager.page_at(p.id as int))
            },
            None => {
                &&& self.frames@[fid].pin_count == 0
                &&& !self.frames@[fid].is_dirty
                &&& self.free_list@.contains(fid as usize)
            },
        }
    }

    spec fn free_ok(self, fid: usize) -> bool {
        &&& fid < self.frames@.len()
        &&& self.frames@[fid as int].page is None
    }

    spec fn repl_ok(self, fid: usize) -> bool {
        &&& fid < self.frames@.len()
        &&& self.frames@[fid as int].page is Some
        &&& self.frames@[fid as int].pin_count == 0
    }

    /// The pool's internal consistency: the page-frame table and the frames
    /// mirror each other; the free list holds exactly the empty frames; the
    /// replacer holds exactly the resident unpinned frames; a clean frame
    /// agrees with the backing store.
    pub closed spec fn wf(self) -> bool {
        &&& self.pager.wf()
        &&& self.frames@.len() <= usize::MAX
        &&& forall|fid: int| 0 <= fid < self.frames@.len() ==> #[trigger] self.frame_ok(fid)
        &&& forall|pid: usize| #[trigger]
            self.pf_table@.contains_key(pid) ==> {
                &&& self.pf_table@[pid] < self.frames@.len()
                &&& self.frames@[self.pf_table@[pid] as int].page is Some
                &&& self.frames@[self.pf_table@[pid] as int].page->0.id == pid
            }
        &&& forall|i: int| 0 <= i < self.free_list@.len() ==> self.free_ok(
            #[trigger] self.free_list@[i],
        )
        &&& forall|i: int, j: int|
            0 <= i < j < self.free_list@.len() ==> self.free_list@[i] != self.free_list@[j]
        &&& self.replacer.wf()
        &&& forall|i: int| 0 <= i < self.replacer@.len() ==> self.repl_ok(
            #[trigger] self.replacer@[i],
        )
        &&& forall|fid: int|
            0 <= fid < self.frames@.len() && (#[trigger] self.frames@[fid]).page is Some
                && self.frames@[fid].pin_count == 0 ==> self.replacer@.contains(fid as usize)
    }

    /// Builds a pool of `pool_size` empty frames over `pager`, every frame
    /// on the free list, the replacer empty.
    pub fn new(pager: Pager, pool_size: usize) -> (r: Cache)
        requires
            pager.wf(),
            pool_size >= 1,
        ensures
            r.wf(),
            r.num_frames() == pool_size,
            r.no_pins(),
            forall|pid: usize| !r.resident(pid),
            forall|pid: usize| r.page_view(pid) == pager.page_at(pid as int),
    {
        let mut frames: Vec<Frame> = Vec::new();
        let mut free_list: Vec<usize> = Vec::new();
        let mut i: usize = 0;
        while i < pool_size
            invariant
                i <= pool_size,
                frames@.len() == i,
                free_list@.len() == i,
                forall|f: int|
                    0 <= f < i ==> (#[trigger] frames@[f]).page is None && !frames@[f].is_dirty
                        && frames@[f].pin_count == 0,
                forall|f: int| 0 <= f < i ==> #[trigger] free_list@[f] == f,
            decreases pool_size - i,
        {
            frames.push(Frame::new());
            free_list.push(i);
            i = i + 1;
        }
        let r = Cache {
            pager,
            frames,
            pf_table: HashMap::new(),
            free_list,
            replacer: LRUReplacer::new(),
        };
        proof {
            assert forall|fid: int| 0 <= fid < r.frames@.len() implies #[trigger] r.frame_ok(
                fid,
            ) by {
                assert(r.free_list@[fid] == fid as usize);
                assert(r.free_list@.contains(fid as usize));
            }
            assert(r.wf());
        }
        r
    }

    /// Surrenders the backing store, for the embedding program to persist.
    /// Only flushed content is in it: flush resident pages first.
    pub fn into_pager(self) -> (r: Pager)
        requires
            self.wf(),
        ensures
            r.wf(),
            forall|q: int| r.page_at(q) == self.disk_at(q),
    {
        self.pager
    }

    /// The content of the pinned, resident page `pid`, as a fresh copy.
    pub fn read_page_bytes(&self, pid: usize) -> (r: Vec<u8>)
        requires
            self.wf(),
            self.resident(pid),
            self.pins(pid) >= 1,
        ensures
            r@ == self.page_view(pid),
            r@.len() == PAGE_SIZE,
    {
        let fid: usize = match self.pf_table.get(&pid) {
            Some(f) => *f,
            None => {
                proof {
                    assert(false);
                }
                0
            },
        };
        proof {
            assert(self.pf_table@.contains_key(pid));
            assert(self.frame_ok(fid as int));
        }
        match &self.frames[fid].page {
            Some(p) => copy_bytes(&p.data),
            None => {
                proof {
                    assert(false);
                }
                Vec::new()
            },
        }
    }

    /// Replaces the content of the pinned, resident page `pid` and marks its
    /// frame modified.  No other page changes.
    pub fn write_page_bytes(&mut self, pid: usize, data: &Vec<u8>)
        requires
            old(self).wf(),
            old(self).resident(pid),
            old(self).pins(pid) >= 1,
            data@.len() == PAGE_SIZE,
        ensures
            final(self).wf(),
            final(self).num_frames() == old(self).num_frames(),
            final(self).page_view(pid) == data@,
            final(self).dirty(pid),
            forall|q: usize| q != pid ==> final(self).page_view(q) == old(self).page_view(q),
            forall|q: usize| final(self).resident(q) == old(self).resident(q),
            forall|q: usize| final(self).pins(q) == old(self).pins(q),
            forall|q: usize| q != pid ==> final(self).dirty(q) == old(self).dirty(q),
            forall|q: usize| final(self).resident(q) ==> final(self).frame_of(q) == old(
                self,
            ).frame_of(q),
    {
        let fid: usize = match self.pf_table.get(&pid) {
            Some(f) => *f,
            None => {
                proof {
                    assert(false);
                }
                0
            },
        };
        let fresh = copy_bytes(data);
        let fr = &mut self.frames[fid];
        fr.page = Some(Page { id: pid, data: fresh });
        fr.is_dirty = true;
        proof {
            assert forall|f: int| 0 <= f < self.frames@.len() implies #[trigger] self.frame_ok(
                f,
            ) by {
                assert(old(self).frame_ok(f));
                if f != fid {
                    assert(self.frames@[f] == old(self).frames@[f]);
                }
            }
            assert forall|i: int| 0 <= i < self.replacer@.len() implies self.repl_ok(
                #[trigger] self.replacer@[i],
            ) by {
                assert(old(self).repl_ok(self.replacer@[i]));
                if self.replacer@[i] == fid {
                    assert(old(self).frame_pins(fid as int) >= 1);
                    assert(false);
                }
            }
            assert(self.wf());
        }
    }

    /// When two page ids map to the same frame, they are the same page.
    proof fn lemma_frame_unique(self, p: usize, q: usize)
        requires
            self.wf(),
            self.resident(p),
            self.resident(q),
            self.frame_of(p) == self.frame_of(q),
        ensures
            p == q,
    {
        assert(self.pf_table@.contains_key(p));
        assert(self.pf_table@.contains_key(q));
    }

    /// Takes a frame to (re)use: the most recently freed never-used frame,
    /// else the least recently unpinned evictable frame.  Fails only when
    /// the free list and the replacer are both empty.
    fn find_free_frame(&mut self) -> (r: Result<usize, StoreError>)
        requires
            old(self).wf(),
        ensures
            final(self).pager == old(self).pager,
            final(self).frames == old(self).frames,
            final(self).pf_table == old(self).pf_table,
            final(self).replacer.wf(),
            forall|i: int, j: int|
                0 <= i < j < final(self).free_list@.len()
                    ==> final(self).free_list@[i] != final(self).free_list@[j],
            match r {
                Ok(fid) => {
                    &&& old(self).free_ok(fid) || old(self).repl_ok(fid)
                    &&& !final(self).free_list@.contains(fid)
                    &&& !final(self).replacer@.contains(fid)
                    &&& forall|x: usize|
                        x != fid ==> final(self).free_list@.contains(x) == old(
                            self,
                        ).free_list@.contains(x)
                    &&& forall|x: usize|
                        x != fid ==> final(self).replacer@.contains(x) == old(
                            self,
                        ).replacer@.contains(x)
                },
                Err(e) => {
                    &&& e == StoreError::BufferPoolExhausted
                    &&& final(self).free_list@ == old(self).free_list@
                    &&& final(self).replacer@ == old(self).replacer@
                    &&& old(self).free_list@.len() == 0
                    &&& old(self).replacer@.len() == 0
                },
            },
    {
        let ghost pre = *old(self);
        match self.free_list.pop() {
            Some(fid) => {
                proof {
                    let n = pre.free_list@.len() as int;
                    assert(pre.free_ok(pre.free_list@[n - 1]));
                    assert(!self.free_list@.contains(fid)) by {
                        if self.free_list@.contains(fid) {
                            let i = choose|i: int|
                                0 <= i < self.free_list@.len() && self.free_list@[i] == fid;
                            assert(pre.free_list@[i] == pre.free_list@[n - 1]);
                        }
                    }
                    assert forall|x: usize|
                        x != fid implies self.free_list@.contains(x) == pre.free_list@.contains(
                        x,
                    ) by {
                        if pre.free_list@.contains(x) {
                            let i = choose|i: int|
                                0 <= i < pre.free_list@.len() && pre.free_list@[i] == x;
                            assert(i < n - 1);
                            assert(self.free_list@[i] == x);
                        }
                        if self.free_list@.contains(x) {
                            let i = choose|i: int|
                                0 <= i < self.free_list@.len() && self.free_list@[i] == x;
                            assert(pre.free_list@[i] == x);
                        }
                    }
                    assert(!self.replacer@.contains(fid)) by {
                        if self.replacer@.contains(fid) {
                            let i = choose|i: int|
                                0 <= i < self.replacer@.len() && self.replacer@[i] == fid;
                            assert(pre.repl_ok(fid));
                        }
                    }
                    assert forall|i: int, j: int|
                        0 <= i < j < self.free_list@.len() implies self.free_list@[i]
                        != self.free_list@[j] by {
                        assert(self.free_list@[i] == pre.free_list@[i]);
                        assert(self.free_list@[j] == pre.free_list@[j]);
                    }
                }
                Ok(fid)
            },
            None => {
                match self.replacer.victim() {
                    Some(fid) => {
                        proof {
                            assert(pre.replacer@[0] == fid);
                            assert(pre.repl_ok(fid));
                            assert(!self.replacer@.contains(fid)) by {
                                if self.replacer@.contains(fid) {
                                    let i = choose|i: int|
                                        0 <= i < self.replacer@.len() && self.replacer@[i] == fid;
                                    assert(pre.replacer@[i + 1] == fid);
                                }
                            }
                            assert forall|x: usize|
                                x != fid implies self.replacer@.contains(x)
                                    == pre.replacer@.contains(x) by {
                                if pre.replacer@.contains(x) {
                                    let i = choose|i: int|
                                        0 <= i < pre.replacer@.len() && pre.replacer@[i] == x;
                                    assert(i >= 1);
                                    assert(self.replacer@[i - 1] == x);
                                }
                                if self.replacer@.contains(x) {
                                    let i = choose|i: int|
                                        0 <= i < self.replacer@.len() && self.replacer@[i] == x;
                                    assert(pre.replacer@[i + 1] == x);
                                }
                            }
                        }
                        Ok(fid)
                    },
                    None => Err(StoreError::BufferPoolExhausted),
                }
            },
        }
    }

    /// Fetches page `pid` into a frame and pins it, returning the frame id.
    ///
    /// A hit pins the existing frame and withdraws it from the replacer.  A
    /// miss takes a frame from the free list, else evicts the least recently
    /// unpinned frame — writing it back to the store first when dirty — and
    /// then reads the page from the store; a page past the store's end
    /// materializes as a fresh zero-filled page, which is the engine's only
    /// way of allocating new pages.  With no free and no evictable frame the
    /// pool is exhausted and nothing changes.  No page's content changes
    /// either way.
    pub fn fetch_page(&mut self, pid: usize) -> (r: Result<usize, StoreError>)
        requires
            old(self).wf(),
            old(self).pins(pid) < usize::MAX,
        ensures
            final(self).wf(),
            final(self).num_frames() == old(self).num_frames(),
            forall|q: usize| final(self).page_view(q) == old(self).page_view(q),
            forall|q: usize| q != pid ==> final(self).pins(q) == old(self).pins(q),
            final(self).dirty(pid) == old(self).dirty(pid),
            r is Ok <==> (old(self).resident(pid) || old(self).has_available_frame()),
            match r {
                Ok(fid) => {
                    &&& 0 <= fid < final(self).num_frames()
                    &&& final(self).resident(pid)
                    &&& final(self).frame_of(pid) == fid
                    &&& final(self).pins(pid) == old(self).pins(pid) + 1
                    &&& (old(self).resident(pid) ==> fid == old(self).frame_of(pid))
                    &&& forall|q: usize|
                        old(self).resident(q) && old(self).pins(q) > 0 ==> final(self).resident(q)
                            && final(self).frame_of(q) == old(self).frame_of(q)
                },
                Err(e) => {
                    &&& e == StoreError::BufferPoolExhausted
                    &&& final(self).pins(pid) == old(self).pins(pid)
                    &&& forall|q: usize| final(self).resident(q) == old(self).resident(q)
                    &&& forall|q: usize| final(self).dirty(q) == old(self).dirty(q)
                },
            },
    {
        let ghost pre = *old(self);
        let hit: Option<usize> = match self.pf_table.get(&pid) {
            Some(f) => Some(*f),
            None => None,
        };
        if let Some(fid) = hit {
            proof {
                assert(pre.pf_table@.contains_key(pid));
                assert(pre.frame_ok(fid as int));
            }
            let fr = &mut self.frames[fid];
            fr.pin_count = fr.pin_count + 1;
            self.replacer.pin(fid);
            proof {
                assert forall|f: int| 0 <= f < self.frames@.len() implies #[trigger] self.frame_ok(
                    f,
                ) by {
                    assert(pre.frame_ok(f));
                    if f != fid {
                        assert(self.frames@[f] == pre.frames@[f]);
                    }
                }
                assert forall|i: int| 0 <= i < self.free_list@.len() implies self.free_ok(
                    #[trigger] self.free_list@[i],
                ) by {
                    assert(pre.free_ok(pre.free_list@[i]));
                    assert(self.free_list@[i] != fid);
                }
                assert forall|i: int| 0 <= i < self.replacer@.len() implies self.repl_ok(
                    #[trigger] self.replacer@[i],
                ) by {
                    let x = self.replacer@[i];
                    assert(x != fid);
                    assert(pre.replacer@.contains(x));
                    let j = choose|j: int| 0 <= j < pre.replacer@.len() && pre.replacer@[j] == x;
                    assert(pre.repl_ok(pre.replacer@[j]));
                    assert(self.frames@[x as int] == pre.frames@[x as int]);
                }
                assert forall|f: int|
                    0 <= f < self.frames@.len() && (#[trigger] self.frames@[f]).page is Some
                        && self.frames@[f].pin_count == 0 implies self.replacer@.contains(
                    f as usize,
                ) by {
                    assert(f != fid);
                    assert(self.frames@[f] == pre.frames@[f]);
                    assert(pre.frame_ok(f));
                }
                assert(self.wf());
                assert forall|q: usize| q != pid implies self.pins(q) == pre.pins(q) by {
                    if pre.resident(q) && pre.frame_of(q) == fid as int {
                        pre.lemma_frame_unique(q, pid);
                    }
                }
                assert forall|q: usize| self.page_view(q) == pre.page_view(q) by {
                    if pre.resident(q) {
                        assert(self.frames@[pre.frame_of(q)].page == pre.frames@[pre.frame_of(
                            q,
                        )].page);
                    }
                }
            }
            return Ok(fid);
        }
        let fid: usize = match self.find_free_frame() {
            Ok(f) => f,
            Err(e) => {
                proof {
                    assert forall|f: int|
                        0 <= f < self.frames@.len() implies #[trigger] self.frame_ok(f) by {
                        assert(pre.frame_ok(f));
                    }
                    assert forall|i: int| 0 <= i < self.free_list@.len() implies self.free_ok(
                        #[trigger] self.free_list@[i],
                    ) by {
                        assert(pre.free_ok(pre.free_list@[i]));
                    }
                    assert forall|i: int| 0 <= i < self.replacer@.len() implies self.repl_ok(
                        #[trigger] self.replacer@[i],
                    ) by {
                        assert(pre.repl_ok(pre.replacer@[i]));
                    }
                    assert(self.wf());
                    assert(!pre.has_available_frame()) by {
                        assert forall|f: int|
                            0 <= f < pre.num_frames() implies (pre.frame_resident(f)
                            && pre.frame_pins(f) != 0) by {
                            assert(pre.frame_ok(f));
                            if pre.frames@[f].page is None {
                                assert(pre.free_list@.contains(f as usize));
                            } else if pre.frames@[f].pin_count == 0 {
                                assert(pre.replacer@.contains(f as usize));
                            }
                        }
                    }
                }
                return Err(e);
            },
        };
        let ghost post_find = *self;
        proof {
            assert(pre.free_ok(fid) || pre.repl_ok(fid));
            assert(pre.has_available_frame()) by {
                assert(0 <= (fid as int) && (fid as int) < pre.num_frames() && (!pre.frame_resident(fid as int) || pre.frame_pins(fid as int) == 0));
            }
        }
        // Write back the departing page if it was modified, then drop its
        // table entry.
        let victim: Option<usize> = match &self.frames[fid].page {
            Some(p) => Some(p.id),
            None => None,
        };
        if let Some(victim_pid) = victim {
            proof {
                assert(pre.frame_ok(fid as int));
            }
            if self.frames[fid].is_dirty {
                match &self.frames[fid].page {
                    Some(p) => self.pager.write_page(p),
                    None => {
                        proof {
                            assert(false);
                        }
                    },
                }
            }
            self.pf_table.remove(&victim_pid);
        }
        let ghost post_evict = *self;
        // Read the requested page; an id past the store's end becomes a
        // fresh zero-filled page.
        let page: Page = match self.pager.read_page(pid) {
            Ok(p) => p,
            Err(_) => Page { id: pid, data: zero_page_data() },
        };
        proof {
            assert(page.id == pid && page.wf() && page.data@ == post_evict.pager.page_at(
                pid as int,
            ));
        }
        let fr = &mut self.frames[fid];
        fr.page = Some(page);
        fr.pin_count = 1;
        fr.is_dirty = false;
        self.pf_table.insert(pid, fid);
        self.replacer.pin(fid);
        proof {
            self.lemma_fetch_install(pre, post_find, post_evict, pid, fid, victim);
        }
        Ok(fid)
    }

    /// After a miss installs `pid` into frame `fid` (evicting `victim`), the
    /// pool is consistent again and no page's content has changed.
    proof fn lemma_fetch_install(
        self,
        pre: Cache,
        post_find: Cache,
        post_evict: Cache,
        pid: usize,
        fid: usize,
        victim: Option<usize>,
    )
        requires
            pre.wf(),
            !pre.resident(pid),
            post_find.pager == pre.pager,
            post_find.frames == pre.frames,
            post_find.pf_table == pre.pf_table,
            pre.free_ok(fid) || pre.repl_ok(fid),
            !post_find.free_list@.contains(fid),
            !post_find.replacer@.contains(fid),
            forall|x: usize|
                x != fid ==> post_find.free_list@.contains(x) == pre.free_list@.contains(x),
            forall|x: usize|
                x != fid ==> post_find.replacer@.contains(x) == pre.replacer@.contains(x),
            post_find.replacer.wf(),
            forall|i: int, j: int|
                0 <= i < j < post_find.free_list@.len() ==> post_find.free_list@[i]
                    != post_find.free_list@[j],
            victim == (if pre.frames@[fid as int].page is Some {
                Some(pre.frames@[fid as int].page->0.id)
            } else {
                None::<usize>
            }),
            post_evict.frames == post_find.frames,
            post_evict.free_list == post_find.free_list,
            post_evict.replacer == post_find.replacer,
            match victim {
                Some(vp) => {
                    &&& post_evict.pf_table@ == pre.pf_table@.remove(vp)
                    &&& post_evict.pager.wf()
                    &&& forall|q: int|
                        q != vp ==> post_evict.pager.page_at(q) == pre.pager.page_at(q)
                    &&& post_evict.pager.page_at(vp as int) == if pre.frames@[fid as int].is_dirty {
                        pre.frames@[fid as int].page->0.data@
                    } else {
                        pre.pager.page_at(vp as int)
                    }
                },
                None => post_evict.pf_table == pre.pf_table && post_evict.pager == pre.pager,
            },
            self.pager == post_evict.pager,
            self.frames@ == pre.frames@.update(fid as int, self.frames@[fid as int]),
            fid < self.frames@.len(),
            self.frames@[fid as int].page is Some,
            self.frames@[fid as int].page->0.id == pid,
            self.frames@[fid as int].page->0.data@ == post_evict.pager.page_at(pid as int),
            self.frames@[fid as int].page->0.data@.len() == PAGE_SIZE,
            self.frames@[fid as int].pin_count == 1,
            self.frames@[fid as int].is_dirty == false,
            self.pf_table@ == post_evict.pf_table@.insert(pid, fid),
            self.free_list == post_evict.free_list,
            !self.replacer@.contains(fid),
            forall|x: usize|
                x != fid ==> self.replacer@.contains(x) == post_evict.replacer@.contains(x),
            self.replacer.wf(),
        ensures
            self.wf(),
            self.num_frames() == pre.num_frames(),
            forall|q: usize| self.page_view(q) == pre.page_view(q),
            forall|q: usize| q != pid ==> self.pins(q) == pre.pins(q),
            self.dirty(pid) == pre.dirty(pid),
            self.resident(pid),
            self.frame_of(pid) == fid as int,
            self.pins(pid) == pre.pins(pid) + 1,
            forall|q: usize|
                pre.resident(q) && pre.pins(q) > 0 ==> self.resident(q) && self.frame_of(q)
                    == pre.frame_of(q),
    {
        // The departing page, when there is one, lived in frame `fid` and
        // nowhere else.
        if victim is Some {
            let vp = victim->0;
            assert(pre.frame_ok(fid as int));
            assert(pre.pf_table@.contains_key(vp) && pre.pf_table@[vp] == fid);
            assert(vp != pid);
        }
        assert forall|q: usize|
            #[trigger] pre.pf_table@.contains_key(q) && q != (if victim is Some {
                victim->0
            } else {
                q
            }) implies pre.pf_table@[q] != fid by {
            if pre.pf_table@[q] == fid {
                assert(pre.frames@[fid as int].page is Some);
                assert(pre.frames@[fid as int].page->0.id == q);
            }
        }
        // Residency afterwards: exactly the old pages minus the victim plus
        // `pid`, in their old frames.
        assert(self.resident(pid) && self.frame_of(pid) == fid as int);
        assert forall|q: usize|
            q != pid && #[trigger] self.pf_table@.contains_key(q) implies
            pre.pf_table@.contains_key(q) && self.pf_table@[q] == pre.pf_table@[q]
            && pre.pf_table@[q] != fid by {
            if victim is Some {
                assert(q != victim->0);
            }
        }
        // Consistency of every frame.
        assert forall|f: int| 0 <= f < self.frames@.len() implies #[trigger] self.frame_ok(f) by {
            if f == fid {
                assert(self.pf_table@.contains_key(pid) && self.pf_table@[pid] == fid);
            } else {
                assert(pre.frame_ok(f));
                assert(self.frames@[f] == pre.frames@[f]);
                match pre.frames@[f].page {
                    Some(p) => {
                        assert(pre.pf_table@.contains_key(p.id) && pre.pf_table@[p.id]
                            == f as usize);
                        assert(p.id != pid);
                        if victim is Some {
                            assert(pre.pf_table@.contains_key(victim->0) && pre.pf_table@[victim
                                ->0] == fid);
                            assert(p.id != victim->0);
                        }
                        assert(self.pf_table@.contains_key(p.id) && self.pf_table@[p.id]
                            == f as usize);
                        if !pre.frames@[f].is_dirty {
                            assert(self.pager.page_at(p.id as int) == pre.pager.page_at(
                                p.id as int,
                            ));
                        }
                    },
                    None => {
                        assert(pre.free_list@.contains(f as usize));
                        assert(f as usize != fid);
                        assert(self.free_list@.contains(f as usize));
                    },
                }
            }
        }
        assert forall|q: usize| #[trigger]
            self.pf_table@.contains_key(q) implies {
            &&& self.pf_table@[q] < self.frames@.len()
            &&& self.frames@[self.pf_table@[q] as int].page is Some
            &&& self.frames@[self.pf_table@[q] as int].page->0.id == q
        } by {
            if q != pid {
                assert(pre.pf_table@.contains_key(q));
                let g = pre.pf_table@[q];
                assert(pre.frames@[g as int].page is Some && pre.frames@[g as int].page->0.id
                    == q);
                assert(g != fid);
                assert(self.frames@[g as int] == pre.frames@[g as int]);
            }
        }
        assert forall|i: int| 0 <= i < self.free_list@.len() implies self.free_ok(
            #[trigger] self.free_list@[i],
        ) by {
            let x = self.free_list@[i];
            assert(self.free_list@.contains(x));
            assert(x != fid);
            assert(pre.free_list@.contains(x));
            let j = choose|j: int| 0 <= j < pre.free_list@.len() && pre.free_list@[j] == x;
            assert(pre.free_ok(pre.free_list@[j]));
            assert(self.frames@[x as int] == pre.frames@[x as int]);
        }
        assert forall|i: int| 0 <= i < self.replacer@.len() implies self.repl_ok(
            #[trigger] self.replacer@[i],
        ) by {
            let x = self.replacer@[i];
            assert(self.replacer@.contains(x));
            assert(x != fid);
            assert(pre.replacer@.contains(x));
            let j = choose|j: int| 0 <= j < pre.replacer@.len() && pre.replacer@[j] == x;
            assert(pre.repl_ok(pre.replacer@[j]));
            assert(self.frames@[x as int] == pre.frames@[x as int]);
        }
        assert forall|f: int|
            0 <= f < self.frames@.len() && (#[trigger] self.frames@[f]).page is Some
                && self.frames@[f].pin_count == 0 implies self.replacer@.contains(f as usize) by {
            assert(f != fid);
            assert(self.frames@[f] == pre.frames@[f]);
            assert(pre.frame_ok(f));
            assert(pre.replacer@.contains(f as usize));
        }
        assert(self.wf());
        // No page's content changed; pins changed only for `pid`.
        assert forall|q: usize| self.page_view(q) == pre.page_view(q) by {
            if q == pid {
                if victim is Some {
                    assert(pid != victim->0);
                }
                assert(self.page_view(q) == post_evict.pager.page_at(pid as int));
                assert(pre.page_view(q) == pre.pager.page_at(pid as int));
            } else if victim is Some && q == victim->0 {
                assert(pre.pf_table@.contains_key(q) && pre.pf_table@[q] == fid);
                assert(pre.page_view(q) == pre.frames@[fid as int].page->0.data@);
                assert(!self.pf_table@.contains_key(q));
                assert(pre.frame_ok(fid as int));
                assert(self.page_view(q) == post_evict.pager.page_at(q as int));
            } else {
                if pre.pf_table@.contains_key(q) {
                    let g = pre.pf_table@[q];
                    assert(g != fid);
                    assert(self.frames@[g as int] == pre.frames@[g as int]);
                } else {
                    assert(!self.pf_table@.contains_key(q));
                    assert(self.pager.page_at(q as int) == pre.pager.page_at(q as int));
                }
            }
        }
        assert forall|q: usize| q != pid implies self.pins(q) == pre.pins(q) by {
            if victim is Some && q == victim->0 {
                assert(pre.pf_table@[q] == fid);
                assert(pre.repl_ok(fid)) by {
                    assert(pre.frames@[fid as int].page is Some);
                }
                assert(pre.pins(q) == 0);
                assert(!self.pf_table@.contains_key(q));
            } else if pre.pf_table@.contains_key(q) {
                let g = pre.pf_table@[q];
                assert(g != fid);
                assert(self.frames@[g as int] == pre.frames@[g as int]);
            } else {
                assert(!self.pf_table@.contains_key(q));
            }
        }
        assert forall|q: usize|
            pre.resident(q) && pre.pins(q) > 0 implies self.resident(q) && self.frame_of(q)
            == pre.frame_of(q) by {
            if victim is Some && q == victim->0 {
                assert(pre.repl_ok(fid)) by {
                    assert(pre.frames@[fid as int].page is Some);
                }
                assert(pre.pins(q) == 0);
            }
        }
    }

    /// Releases one pin on page `pid`, recording `is_dirty`.  Returns false
    /// — and changes nothing — when the page is not resident or not pinned.
    /// When the last pin goes, the frame becomes evictable.
    pub fn unpin_page(&mut self, pid: usize, is_dirty: bool) -> (r: bool)
        requires
            old(self).wf(),
        ensures
            final(self).wf(),
            final(self).num_frames() == old(self).num_frames(),
            r == (old(self).resident(pid) && old(self).pins(pid) > 0),
            forall|q: usize| final(self).page_view(q) == old(self).page_view(q),
            forall|q: usize| final(self).resident(q) == old(self).resident(q),
            forall|q: usize|
                final(self).resident(q) ==> final(self).frame_of(q) == old(self).frame_of(q),
            forall|q: usize| q != pid ==> final(self).pins(q) == old(self).pins(q),
            forall|q: usize| q != pid ==> final(self).dirty(q) == old(self).dirty(q),
            r ==> final(self).pins(pid) == old(self).pins(pid) - 1,
            r ==> final(self).dirty(pid) == (old(self).dirty(pid) || is_dirty),
            !r ==> final(self).pins(pid) == old(self).pins(pid) && final(self).dirty(pid) == old(
                self,
            ).dirty(pid),
    {
        let ghost pre = *old(self);
        let fid: usize = match self.pf_table.get(&pid) {
            Some(f) => *f,
            None => {
                return false;
            },
        };
        proof {
            assert(pre.pf_table@.contains_key(pid));
            assert(pre.frame_ok(fid as int));
        }
        let pins = self.frames[fid].pin_count;
        if pins == 0 {
            return false;
        }
        let fr = &mut self.frames[fid];
        fr.pin_count = pins - 1;
        if is_dirty {
            fr.is_dirty = true;
        }
        if pins == 1 {
            self.replacer.unpin(fid);
        }
        proof {
            assert forall|f: int| 0 <= f < self.frames@.len() implies #[trigger] self.frame_ok(
                f,
            ) by {
                assert(pre.frame_ok(f));
                if f != fid {
                    assert(self.frames@[f] == pre.frames@[f]);
                }
            }
            assert forall|i: int| 0 <= i < self.free_list@.len() implies self.free_ok(
                #[trigger] self.free_list@[i],
            ) by {
                assert(pre.free_ok(pre.free_list@[i]));
                assert(self.free_list@[i] != fid);
            }
            assert forall|i: int| 0 <= i < self.replacer@.len() implies self.repl_ok(
                #[trigger] self.replacer@[i],
            ) by {
                let x = self.replacer@[i];
                if x == fid {
                    assert(self.replacer@.contains(fid));
                    assert(pins == 1) by {
                        if pins != 1 {
                            assert(self.replacer@ == pre.replacer@);
                            assert(pre.repl_ok(fid));
                        }
                    }
                } else {
                    assert(pre.replacer@.contains(x)) by {
                        if pins == 1 {
                            assert(self.replacer@ == if pre.replacer@.contains(fid) {
                                pre.replacer@
                            } else {
                                pre.replacer@.push(fid)
                            });
                            if !pre.replacer@.contains(x) {
                                let j = choose|j: int|
                                    0 <= j < self.replacer@.len() && self.replacer@[j] == x;
                                assert(pre.replacer@.push(fid)[j] == x);
                            }
                        }
                    }
                    let j = choose|j: int|
                        0 <= j < pre.replacer@.len() && pre.replacer@[j] == x;
                    assert(pre.repl_ok(pre.replacer@[j]));
                    assert(self.frames@[x as int] == pre.frames@[x as int]);
                }
            }
            assert forall|f: int|
                0 <= f < self.frames@.len() && (#[trigger] self.frames@[f]).page is Some
                    && self.frames@[f].pin_count == 0 implies self.replacer@.contains(
                f as usize,
            ) by {
                if f == fid {
                    assert(pins == 1);
                    assert(self.replacer@ == if pre.replacer@.contains(fid) {
                        pre.replacer@
                    } else {
                        pre.replacer@.push(fid)
                    });
                    if !pre.replacer@.contains(fid) {
                        assert(self.replacer@[self.replacer@.len() - 1] == fid);
                    }
                } else {
                    assert(self.frames@[f] == pre.frames@[f]);
                    assert(pre.frame_ok(f));
                    assert(pre.replacer@.contains(f as usize));
                    if pins == 1 {
                        if !pre.replacer@.contains(fid) {
                            let j = choose|j: int|
                                0 <= j < pre.replacer@.len() && pre.replacer@[j] == f as usize;
                            assert(self.replacer@[j] == f as usize);
                        }
                    }
                }
            }
            assert(self.wf());
            assert forall|q: usize| q != pid implies self.pins(q) == pre.pins(q) && self.dirty(q)
                == pre.dirty(q) by {
                if pre.resident(q) && pre.frame_of(q) == fid as int {
                    pre.lemma_frame_unique(q, pid);
                }
            }
            assert forall|q: usize| self.page_view(q) == pre.page_view(q) by {
                if pre.resident(q) {
                    assert(self.frames@[pre.frame_of(q)].page == pre.frames@[pre.frame_of(
                        q,
                    )].page);
                }
            }
        }
        true
    }

    /// Writes the resident page `pid` through to the backing store and
    /// clears its dirty bit.  A non-resident page is left alone: flushing it
    /// is a no-op, not an error.  Pin counts and page contents are
    /// untouched.
    pub fn flush_page(&mut self, pid: usize) -> (r: Result<(), StoreError>)
        requires
            old(self).wf(),
        ensures
            final(self).wf(),
            final(self).num_frames() == old(self).num_frames(),
            r is Ok,
            forall|q: usize| final(self).page_view(q) == old(self).page_view(q),
            forall|q: usize| final(self).resident(q) == old(self).resident(q),
            forall|q: usize|
                final(self).resident(q) ==> final(self).frame_of(q) == old(self).frame_of(q),
            forall|q: usize| final(self).pins(q) == old(self).pins(q),
            forall|q: usize| q != pid ==> final(self).dirty(q) == old(self).dirty(q),
            old(self).resident(pid) ==> !final(self).dirty(pid) && final(self).disk_at(pid as int)
                == old(self).page_view(pid),
            !old(self).resident(pid) ==> final(self).dirty(pid) == old(self).dirty(pid),
    {
        let ghost pre = *old(self);
        let fid: usize = match self.pf_table.get(&pid) {
            Some(f) => *f,
            None => {
                return Ok(());
            },
        };
        proof {
            assert(pre.pf_table@.contains_key(pid));
            assert(pre.frame_ok(fid as int));
        }
        match &self.frames[fid].page {
            Some(p) => self.pager.write_page(p),
            None => {
                proof {
                    assert(false);
                }
            },
        }
        let fr = &mut self.frames[fid];
        fr.is_dirty = false;
        proof {
            assert forall|f: int| 0 <= f < self.frames@.len() implies #[trigger] self.frame_ok(
                f,
            ) by {
                assert(pre.frame_ok(f));
                if f != fid {
                    assert(self.frames@[f] == pre.frames@[f]);
                    match pre.frames@[f].page {
                        Some(p) => {
                            assert(pre.pf_table@.contains_key(p.id) && pre.pf_table@[p.id] == f);
                            assert(p.id != pid);
                            assert(self.pager.page_at(p.id as int) == pre.pager.page_at(
                                p.id as int,
                            ));
                        },
                        None => {},
                    }
                }
            }
            assert forall|i: int| 0 <= i < self.free_list@.len() implies self.free_ok(
                #[trigger] self.free_list@[i],
            ) by {
                assert(pre.free_ok(pre.free_list@[i]));
                assert(self.free_list@[i] != fid);
            }
            assert forall|i: int| 0 <= i < self.replacer@.len() implies self.repl_ok(
                #[trigger] self.replacer@[i],
            ) by {
                let x = self.replacer@[i];
                assert(pre.repl_ok(x));
                if x != fid {
                    assert(self.frames@[x as int] == pre.frames@[x as int]);
                }
            }
            assert forall|f: int|
                0 <= f < self.frames@.len() && (#[trigger] self.frames@[f]).page is Some
                    && self.frames@[f].pin_count == 0 implies self.replacer@.contains(
                f as usize,
            ) by {
                if f != fid {
                    assert(self.frames@[f] == pre.frames@[f]);
                }
                assert(pre.frame_ok(f));
            }
            assert(self.wf());
            assert forall|q: usize| self.page_view(q) == pre.page_view(q) by {
                if pre.resident(q) {
                    assert(self.frames@[pre.frame_of(q)].page == pre.frames@[pre.frame_of(
                        q,
                    )].page);
                } else {
                    assert(q != pid);
                    assert(self.pager.page_at(q as int) == pre.pager.page_at(q as int)) by {
                        if q as int == pre.frames@[fid as int].page->0.id {
                            assert(pre.pf_table@.contains_key(pre.frames@[fid as int].page->0.id));
                        }
                    }
                }
            }
        }
        Ok(())
    }
}

/// Law: the page-frame table and the frames mirror each other exactly —
/// `pf_table` maps `pid` to `fid` precisely when frame `fid` holds the page
/// with id `pid`.
pub proof fn lemma_page_frame_bijection(c: Cache, pid: usize, fid: int)
    requires
        c.wf(),
        0 <= fid < c.num_frames(),
    ensures
        (c.resident(pid) && c.frame_of(pid) == fid) <==> (c.frame_resident(fid)
            && c.frame_page_id(fid) == pid),
{
    assert(c.frame_ok(fid));
    if c.frame_resident(fid) && c.frame_page_id(fid) == pid {
        assert(c.resident(pid) && c.frame_of(pid) == fid);
    }
}

/// Law: at any time a frame sits in at most one of the free list, the
/// replacer, and the pinned state.
pub proof fn lemma_frame_in_one_place(c: Cache, fid: usize)
    requires
        c.wf(),
        fid < c.num_frames(),
    ensures
        !(c.in_free_list(fid) && c.in_replacer(fid)),
        !(c.in_free_list(fid) && c.frame_pins(fid as int) > 0),
        !(c.in_replacer(fid) && c.frame_pins(fid as int) > 0),
{
    assert(c.frame_ok(fid as int));
    if c.in_free_list(fid) {
        let i = choose|i: int| 0 <= i < c.free_list@.len() && c.free_list@[i] == fid;
        assert(c.free_ok(c.free_list@[i]));
    }
    if c.in_replacer(fid) {
        let i = choose|i: int| 0 <= i < c.replacer@.len() && c.replacer@[i] == fid;
        assert(c.repl_ok(c.replacer@[i]));
    }
}

/// Law: every frame the replacer can offer as an eviction victim is
/// resident and carries no pin.
pub proof fn lemma_replacer_evictable(c: Cache, fid: usize)
    requires
        c.wf(),
        c.in_replacer(fid),
    ensures
        fid < c.num_frames(),
        c.frame_resident(fid as int),
        c.frame_pins(fid as int) == 0,
{
    let i = choose|i: int| 0 <= i < c.replacer@.len() && c.replacer@[i] == fid;
    assert(c.repl_ok(c.replacer@[i]));
}

/// With every page unpinned and at least one frame, a miss can always be
/// served: some frame is free or evictable.
pub proof fn lemma_unpinned_pool_available(c: Cache)
    requires
        c.wf(),
        c.num_frames() >= 1,
        c.no_pins(),
    ensures
        c.has_available_frame(),
{
    assert(c.frame_ok(0));
    if c.frame_resident(0) {
        let q = c.frame_page_id(0);
        assert(c.resident(q) && c.frame_of(q) == 0);
        assert(c.pins(q) == 0);
    }
    assert(0 <= 0 < c.num_frames() && (!c.frame_resident(0) || c.frame_pins(0) == 0));
}

/// A resident page with no pins sits in an evictable frame: the pool can
/// serve a miss.
pub proof fn lemma_unpinned_page_available(c: Cache, pid: usize)
    requires
        c.wf(),
        c.resident(pid),
        c.pins(pid) == 0,
    ensures
        c.has_available_frame(),
{
    assert(c.pf_table@.contains_key(pid));
    let fid = c.frame_of(pid);
    assert(0 <= fid < c.num_frames() && (!c.frame_resident(fid) || c.frame_pins(fid) == 0));
}

/// Every page's content — cached or on the backing store — is exactly one
/// page long.
pub proof fn lemma_page_view_len(c: Cache, pid: usize)
    requires
        c.wf(),
    ensures
        c.page_view(pid).len() == PAGE_SIZE,
{
    if c.resident(pid) {
        assert(c.pf_table@.contains_key(pid));
        assert(c.frame_ok(c.frame_of(pid)));
    } else {
        c.pager.lemma_page_at_len(pid as int);
    }
}

} // verus!
