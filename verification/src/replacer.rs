//! Least-recently-used replacement.
//!
//! The replacer keeps the frame ids that are candidates for eviction, in the
//! order in which they last became evictable: oldest at the front, newest at
//! the back.  It never holds a frame id twice.  The buffer pool is
//! responsible for only handing it frames that are resident and unpinned.

use std::collections::VecDeque;
use vstd::prelude::*;

verus! {

broadcast use vstd::std_specs::vecdeque::group_vec_dequeue_axioms;

/// Tracks evictable frames, least recently unpinned first.
pub struct LRUReplacer {
    free_frames: VecDeque<usize>,
}

impl LRUReplacer {
    /// The queue of evictable frame ids, front first.
    pub closed spec fn view(self) -> Seq<usize> {
        self.free_frames@
    }

    /// No frame id appears twice.
    pub open spec fn wf(self) -> bool {
        forall|i: int, j: int| 0 <= i < j < self@.len() ==> self@[i] != self@[j]
    }

    /// An empty replacer.
    pub fn new() -> (r: LRUReplacer)
        ensures
            r@ == Seq::<usize>::empty(),
            r.wf(),
    {
        LRUReplacer { free_frames: VecDeque::new() }
    }

    /// How many frames are evictable.
    pub fn len(&self) -> (r: usize)
        ensures
            r == self@.len(),
    {
        self.free_frames.len()
    }

    /// Whether `frame_id` is queued.
    pub fn contains(&self, frame_id: usize) -> (r: bool)
        ensures
            r == self@.contains(frame_id),
    {
        let mut i: usize = 0;
        while i < self.free_frames.len()
            invariant
                i <= self@.len(),
                forall|j: int| 0 <= j < i ==> self@[j] != frame_id,
            decreases self@.len() - i,
        {
            if self.free_frames[i] == frame_id {
                return true;
            }
            i = i + 1;
        }
        false
    }

    /// Marks `frame_id` evictable: appends it at the back (most recently
    /// unpinned) unless it is already queued.
    pub fn unpin(&mut self, frame_id: usize)
        requires
            old(self).wf(),
        ensures
            final(self).wf(),
            final(self)@ == if old(self)@.contains(frame_id) {
                old(self)@
            } else {
                old(self)@.push(frame_id)
            },
    {
        if !self.contains(frame_id) {
            self.free_frames.push_back(frame_id);
        }
    }

    /// Marks `frame_id` in use: removes it from the queue if present.
    pub fn pin(&mut self, frame_id: usize)
        requires
            old(self).wf(),
        ensures
            final(self).wf(),
            !final(self)@.contains(frame_id),
            old(self)@.contains(frame_id) ==> exists|p: int|
                0 <= p < old(self)@.len() && old(self)@[p] == frame_id && final(self)@ == old(
                    self,
                )@.remove(p),
            !old(self)@.contains(frame_id) ==> final(self)@ == old(self)@,
            forall|x: usize| x != frame_id ==> final(self)@.contains(x) == old(self)@.contains(x),
    {
        let ghost prior = self@;
        let mut i: usize = 0;
        while i < self.free_frames.len()
            invariant
                self@ == prior,
                prior == old(self)@,
                self.wf(),
                i <= self@.len(),
                forall|j: int| 0 <= j < i ==> self@[j] != frame_id,
            decreases self@.len() - i,
        {
            if self.free_frames[i] == frame_id {
                self.free_frames.remove(i);
                proof {
                    lemma_remove_keeps_others(prior, i as int);
                    assert(!self@.contains(frame_id)) by {
                        assert forall|k: int| 0 <= k < self@.len() implies self@[k] != frame_id by {
                            if k < i {
                                assert(self@[k] == prior[k]);
                            } else {
                                assert(self@[k] == prior[k + 1]);
                            }
                        }
                    }
                }
                return ;
            }
            i = i + 1;
        }
        proof {
            assert(!self@.contains(frame_id));
        }
    }

    /// Takes the least recently unpinned frame, if any frame is evictable.
    pub fn victim(&mut self) -> (r: Option<usize>)
        requires
            old(self).wf(),
        ensures
            final(self).wf(),
            match r {
                Some(fid) => old(self)@.len() > 0 && fid == old(self)@[0] && final(self)@ == old(
                    self,
                )@.subrange(1, old(self)@.len() as int),
                None => old(self)@.len() == 0 && final(self)@ == old(self)@,
            },
    {
        self.free_frames.pop_front()
    }
}

/// Removing one position keeps every other value and introduces none.
proof fn lemma_remove_keeps_others(s: Seq<usize>, p: int)
    requires
        0 <= p < s.len(),
        forall|i: int, j: int| 0 <= i < j < s.len() ==> s[i] != s[j],
    ensures
        forall|i: int, j: int| 0 <= i < j < s.remove(p).len() ==> s.remove(p)[i] != s.remove(p)[j],
        forall|x: usize| x != s[p] ==> s.remove(p).contains(x) == s.contains(x),
{
    let t = s.remove(p);
    assert forall|x: usize| x != s[p] implies t.contains(x) == s.contains(x) by {
        if s.contains(x) {
            let k = choose|k: int| 0 <= k < s.len() && s[k] == x;
            if k < p {
                assert(t[k] == x);
            } else {
                assert(t[k - 1] == x);
            }
        }
        if t.contains(x) {
            let k = choose|k: int| 0 <= k < t.len() && t[k] == x;
            if k < p {
                assert(s[k] == x);
            } else {
                assert(s[k + 1] == x);
            }
        }
    }
}

} // verus!
