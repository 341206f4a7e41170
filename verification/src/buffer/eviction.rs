//! Eviction policies: decide which resident-but-unpinned frame to reclaim.
//!
//! Every variant tracks, per frame, whether the frame is a legal eviction
//! candidate, and shares one contract: `pin` removes a frame from candidacy,
//! `unpin` restores it, and `evict` returns some candidate frame — marking it
//! ineligible so that the same frame is never handed out twice before it is
//! unpinned again — or nothing when every frame is pinned.

use crate::common::BufferFrameIdT;
use vstd::prelude::*;

verus! {

/// Selector for the eviction strategy a buffer manager is built with.
#[derive(Clone, Copy, PartialEq, Eq, Structural, Debug)]
pub enum PolicyVariant {
    Clock,
    LRU,
    Slow,
}

/// The frame index one step ahead of `p` on a circular sweep over `n` frames.
pub open spec fn next_pos(p: int, n: int) -> int {
    if p + 1 == n {
        0
    } else {
        p + 1
    }
}

/// The frame index `k` steps ahead of `start` on a circular sweep over `n`
/// frames.
pub open spec fn pos_after(start: int, k: nat, n: int) -> int
    decreases k,
{
    if k == 0 {
        start
    } else {
        next_pos(pos_after(start, (k - 1) as nat, n), n)
    }
}

/// A circular sweep of at most `n` steps from a valid position lands on
/// `start + k`, wrapped around once past the end.
pub proof fn lemma_pos_after_char(start: int, k: nat, n: int)
    requires
        0 <= start < n,
        k <= n,
    ensures
        pos_after(start, k, n) == if start + k < n {
            start + k
        } else {
            start + k - n
        },
    decreases k,
{
    if k > 0 {
        lemma_pos_after_char(start, (k - 1) as nat, n);
    }
}

/// Clock eviction: each frame has a reference bit; a circular hand sweeps
/// the frames, skipping non-candidates, clearing set reference bits, and
/// selecting the first candidate found with a clear bit.
pub struct ClockPolicy {
    hand: usize,
    ref_bit: Vec<bool>,
    candidate: Vec<bool>,
}

impl ClockPolicy {
    pub closed spec fn frame_count(&self) -> nat {
        self.candidate@.len()
    }

    pub closed spec fn eligible(&self, f: int) -> bool {
        0 <= f < self.candidate@.len() && self.candidate@[f]
    }

    pub closed spec fn wf(&self) -> bool {
        &&& self.ref_bit@.len() == self.candidate@.len()
        &&& self.candidate@.len() <= u32::MAX
        &&& (self.candidate@.len() == 0 ==> self.hand == 0)
        &&& (self.candidate@.len() > 0 ==> self.hand < self.candidate@.len())
    }

    pub fn new(size: BufferFrameIdT) -> (p: ClockPolicy)
        ensures
            p.wf(),
            p.frame_count() == size,
            forall|f: int| p.eligible(f) <==> 0 <= f < size,
    {
        ClockPolicy {
            hand: 0,
            ref_bit: vec![false; size as usize],
            candidate: vec![true; size as usize],
        }
    }

    pub fn pin(&mut self, frame_id: BufferFrameIdT)
        requires
            old(self).wf(),
        ensures
            final(self).wf(),
            final(self).frame_count() == old(self).frame_count(),
            !final(self).eligible(frame_id as int),
            forall|g: int|
                g != frame_id ==> final(self).eligible(g) == old(self).eligible(g),
    {
        if (frame_id as usize) < self.candidate.len() {
            self.candidate[frame_id as usize] = false;
        }
    }

    pub fn unpin(&mut self, frame_id: BufferFrameIdT)
        requires
            old(self).wf(),
        ensures
            final(self).wf(),
            final(self).frame_count() == old(self).frame_count(),
            frame_id < old(self).frame_count() ==> final(self).eligible(frame_id as int),
            frame_id >= old(self).frame_count() ==> final(self).eligible(frame_id as int)
                == old(self).eligible(frame_id as int),
            forall|g: int|
                g != frame_id ==> final(self).eligible(g) == old(self).eligible(g),
    {
        if (frame_id as usize) < self.candidate.len() {
            self.candidate[frame_id as usize] = true;
            self.ref_bit[frame_id as usize] = true;
        }
    }

    pub fn evict(&mut self) -> (r: Option<BufferFrameIdT>)
        requires
            old(self).wf(),
        ensures
            final(self).wf(),
            final(self).frame_count() == old(self).frame_count(),
            match r {
                Some(f) => f < old(self).frame_count() && old(self).eligible(f as int)
                    && !final(self).eligible(f as int) && forall|g: int|
                    g != f ==> final(self).eligible(g) == old(self).eligible(g),
                None => (forall|g: int| !old(self).eligible(g)) && forall|g: int|
                    final(self).eligible(g) == old(self).eligible(g),
            },
    {
        let n = self.candidate.len();
        if n == 0 {
            return None;
        }
        let ghost start = self.hand as int;

        // First sweep: clear set reference bits; select any candidate whose
        // bit is already clear.
        let mut k: usize = 0;
        while k < n
            invariant
                old(self).wf(),
                n == self.candidate@.len(),
                n == self.ref_bit@.len(),
                n > 0,
                0 <= start < n,
                k <= n,
                self.hand < n,
                self.hand as int == pos_after(start, k as nat, n as int),
                self.candidate@ == old(self).candidate@,
                forall|i: int|
                    0 <= i < n && #[trigger] self.ref_bit@[i] ==> old(self).ref_bit@[i],
                forall|j: int|
                    0 <= j < k ==> 0 <= #[trigger] pos_after(start, j as nat, n as int) < n,
                forall|j: int|
                    0 <= j < k ==> !self.candidate@[#[trigger] pos_after(start, j as nat, n as int)]
                        || !self.ref_bit@[pos_after(start, j as nat, n as int)],
            decreases n - k,
        {
            let pos = self.hand;
            self.hand = if pos + 1 == n {
                0
            } else {
                pos + 1
            };
            if self.candidate[pos] {
                if self.ref_bit[pos] {
                    self.ref_bit[pos] = false;
                } else {
                    self.candidate[pos] = false;
                    proof {
                        assert(old(self).eligible(pos as int));
                        assert(forall|g: int|
                            g != pos ==> final(self).eligible(g) == old(self).eligible(g));
                    }
                    return Some(pos as u32);
                }
            }
            k += 1;
        }

        proof {
            // Every frame was visited, so every candidate's bit is now clear.
            assert forall|p: int| 0 <= p < n implies !self.candidate@[p]
                || !self.ref_bit@[p] by {
                let j: nat = if p >= start {
                    (p - start) as nat
                } else {
                    (p + n - start) as nat
                };
                lemma_pos_after_char(start, j, n as int);
                assert(pos_after(start, j, n as int) == p);
            }
            lemma_pos_after_char(start, n as nat, n as int);
            assert(self.hand as int == start);
        }

        // Second sweep: every candidate now has a clear bit, so the first
        // candidate the hand meets is selected.
        let mut k2: usize = 0;
        while k2 < n
            invariant
                old(self).wf(),
                n == self.candidate@.len(),
                n == self.ref_bit@.len(),
                n > 0,
                0 <= start < n,
                k2 <= n,
                self.hand < n,
                self.hand as int == pos_after(start, k2 as nat, n as int),
                self.candidate@ == old(self).candidate@,
                forall|j: int|
                    0 <= j < k2 ==> 0 <= #[trigger] pos_after(start, j as nat, n as int) < n,
                forall|j: int|
                    0 <= j < k2 ==> !self.candidate@[#[trigger] pos_after(start, j as nat, n as int)],
            decreases n - k2,
        {
            let pos = self.hand;
            self.hand = if pos + 1 == n {
                0
            } else {
                pos + 1
            };
            if self.candidate[pos] {
                self.candidate[pos] = false;
                proof {
                    assert(old(self).eligible(pos as int));
                    assert(forall|g: int|
                        g != pos ==> final(self).eligible(g) == old(self).eligible(g));
                }
                return Some(pos as u32);
            }
            k2 += 1;
        }

        proof {
            assert forall|g: int| !old(self).eligible(g) by {
                if 0 <= g < n {
                    let j: nat = if g >= start {
                        (g - start) as nat
                    } else {
                        (g + n - start) as nat
                    };
                    lemma_pos_after_char(start, j, n as int);
                    assert(!self.candidate@[g]);
                }
            }
        }
        None
    }
}

/// Least-recently-used eviction: candidate frames are kept in recency order,
/// least recently unpinned first, and the least recent one is selected.
pub struct LRUPolicy {
    size: BufferFrameIdT,
    queue: Vec<BufferFrameIdT>,
}

impl LRUPolicy {
    pub closed spec fn frame_count(&self) -> nat {
        self.size as nat
    }

    pub closed spec fn eligible(&self, f: int) -> bool {
        0 <= f < self.size && self.queue@.contains(f as BufferFrameIdT)
    }

    pub closed spec fn wf(&self) -> bool {
        &&& forall|i: int| 0 <= i < self.queue@.len() ==> #[trigger] self.queue@[i] < self.size
        &&& forall|i: int, j: int|
            0 <= i < self.queue@.len() && 0 <= j < self.queue@.len() && i != j
                ==> self.queue@[i] != self.queue@[j]
    }

    pub fn new(size: BufferFrameIdT) -> (p: LRUPolicy)
        ensures
            p.wf(),
            p.frame_count() == size,
            forall|f: int| p.eligible(f) <==> 0 <= f < size,
    {
        let mut queue: Vec<BufferFrameIdT> = Vec::new();
        let mut i: BufferFrameIdT = 0;
        while i < size
            invariant
                i <= size,
                queue@.len() == i,
                forall|j: int| 0 <= j < i ==> #[trigger] queue@[j] == j,
            decreases size - i,
        {
            queue.push(i);
            i += 1;
        }
        let p = LRUPolicy { size, queue };
        proof {
            assert forall|f: int| p.eligible(f) <==> 0 <= f < size by {
                if 0 <= f < size {
                    assert(p.queue@[f] == f as BufferFrameIdT);
                    assert(p.queue@.contains(f as BufferFrameIdT));
                }
            }
        }
        p
    }

    /// Remove `frame_id` from the queue if present; afterwards the frame is
    /// no candidate and every other frame's candidacy is unchanged.
    fn remove_from_queue(&mut self, frame_id: BufferFrameIdT)
        requires
            old(self).wf(),
        ensures
            final(self).wf(),
            final(self).size == old(self).size,
            !final(self).queue@.contains(frame_id),
            forall|x: BufferFrameIdT|
                x != frame_id ==> final(self).queue@.contains(x) == old(
                    self,
                ).queue@.contains(x),
    {
        let ghost q0 = self.queue@;
        let mut i: usize = 0;
        while i < self.queue.len()
            invariant
                old(self).wf(),
                q0 == old(self).queue@,
                self.queue@ == q0,
                self.size == old(self).size,
                i <= q0.len(),
                forall|j: int| 0 <= j < i ==> q0[j] != frame_id,
            decreases q0.len() - i,
        {
            if self.queue[i] == frame_id {
                self.queue.remove(i);
                proof {
                    q0.remove_ensures(i as int);
                    let q1 = self.queue@;
                    assert(q1.len() == q0.len() - 1);
                    assert(forall|j: int| 0 <= j < i ==> q1[j] == q0[j]);
                    assert(forall|j: int| i <= j < q1.len() ==> q1[j] == q0[j + 1]);
                    assert forall|j: int| 0 <= j < q1.len() implies q1[j]
                        != frame_id by {
                        if j < i {
                        } else {
                            assert(q1[j] == q0[j + 1]);
                            assert(q0[i as int] == frame_id);
                        }
                    }
                    assert(!q1.contains(frame_id));
                    assert forall|x: BufferFrameIdT| x != frame_id implies q1.contains(x)
                        == q0.contains(x) by {
                        if q0.contains(x) {
                            let j = choose|j: int| 0 <= j < q0.len() && q0[j] == x;
                            if j < i {
                                assert(q1[j] == x);
                                assert(q1.contains(x));
                            } else {
                                assert(j != i);
                                assert(q1[j - 1] == x);
                                assert(q1.contains(x));
                            }
                        }
                        if q1.contains(x) {
                            let j = choose|j: int| 0 <= j < q1.len() && q1[j] == x;
                            if j < i {
                                assert(q0[j] == x);
                            } else {
                                assert(q0[j + 1] == x);
                            }
                            assert(q0.contains(x));
                        }
                    }
                }
                return;
            }
            i += 1;
        }
        proof {
            assert(!self.queue@.contains(frame_id));
        }
    }

    pub fn pin(&mut self, frame_id: BufferFrameIdT)
        requires
            old(self).wf(),
        ensures
            final(self).wf(),
            final(self).frame_count() == old(self).frame_count(),
            !final(self).eligible(frame_id as int),
            forall|g: int|
                g != frame_id ==> final(self).eligible(g) == old(self).eligible(g),
    {
        self.remove_from_queue(frame_id);
        proof {
            assert forall|g: int|
                g != frame_id implies final(self).eligible(g) == old(self).eligible(
                g,
            ) by {
                if 0 <= g < self.size {
                    assert(g as BufferFrameIdT != frame_id);
                }
            }
        }
    }

    pub fn unpin(&mut self, frame_id: BufferFrameIdT)
        requires
            old(self).wf(),
        ensures
            final(self).wf(),
            final(self).frame_count() == old(self).frame_count(),
            frame_id < old(self).frame_count() ==> final(self).eligible(frame_id as int),
            frame_id >= old(self).frame_count() ==> final(self).eligible(frame_id as int)
                == old(self).eligible(frame_id as int),
            forall|g: int|
                g != frame_id ==> final(self).eligible(g) == old(self).eligible(g),
    {
        if frame_id < self.size {
            // Refresh recency: move the frame to the most-recent end.
            self.remove_from_queue(frame_id);
            let ghost q1 = self.queue@;
            self.queue.push(frame_id);
            proof {
                let q2 = self.queue@;
                assert(q2[q2.len() - 1] == frame_id);
                assert(q2.contains(frame_id));
                assert forall|x: BufferFrameIdT| x != frame_id implies q2.contains(x)
                    == q1.contains(x) by {
                    if q2.contains(x) {
                        let j = choose|j: int| 0 <= j < q2.len() && q2[j] == x;
                        assert(j < q1.len());
                        assert(q1[j] == x);
                        assert(q1.contains(x));
                    }
                    if q1.contains(x) {
                        let j = choose|j: int| 0 <= j < q1.len() && q1[j] == x;
                        assert(q2[j] == x);
                        assert(q2.contains(x));
                    }
                }
                assert forall|g: int|
                    g != frame_id implies final(self).eligible(g) == old(self).eligible(
                    g,
                ) by {
                    if 0 <= g < self.size {
                        assert(g as BufferFrameIdT != frame_id);
                    }
                }
            }
        }
    }

    pub fn evict(&mut self) -> (r: Option<BufferFrameIdT>)
        requires
            old(self).wf(),
        ensures
            final(self).wf(),
            final(self).frame_count() == old(self).frame_count(),
            match r {
                Some(f) => f < old(self).frame_count() && old(self).eligible(f as int)
                    && !final(self).eligible(f as int) && forall|g: int|
                    g != f ==> final(self).eligible(g) == old(self).eligible(g),
                None => (forall|g: int| !old(self).eligible(g)) && forall|g: int|
                    final(self).eligible(g) == old(self).eligible(g),
            },
    {
        if self.queue.len() == 0 {
            proof {
                assert forall|g: int| !old(self).eligible(g) by {
                    if old(self).queue@.contains(g as BufferFrameIdT) {
                        let j = choose|j: int|
                            0 <= j < old(self).queue@.len() && old(self).queue@[j]
                                == g as BufferFrameIdT;
                    }
                }
            }
            return None;
        }
        let ghost q0 = self.queue@;
        let f = self.queue.remove(0);
        proof {
            q0.remove_ensures(0);
            let q1 = self.queue@;
            assert(f == q0[0]);
            assert(q0.contains(f));
            assert(f < self.size);
            assert(forall|j: int| 0 <= j < q1.len() ==> q1[j] == q0[j + 1]);
            assert forall|j: int| 0 <= j < q1.len() implies q1[j] != f by {
                assert(q1[j] == q0[j + 1]);
                assert(q0[0] == f);
            }
            assert(!q1.contains(f));
            assert forall|x: BufferFrameIdT| x != f implies q1.contains(x) == q0.contains(
                x,
            ) by {
                if q0.contains(x) {
                    let j = choose|j: int| 0 <= j < q0.len() && q0[j] == x;
                    assert(j != 0);
                    assert(q1[j - 1] == x);
                    assert(q1.contains(x));
                }
                if q1.contains(x) {
                    let j = choose|j: int| 0 <= j < q1.len() && q1[j] == x;
                    assert(q0[j + 1] == x);
                    assert(q0.contains(x));
                }
            }
            assert forall|g: int|
                g != f implies final(self).eligible(g) == old(self).eligible(g) by {
                if 0 <= g < self.size {
                    assert(g as BufferFrameIdT != f);
                }
            }
        }
        Some(f)
    }
}

/// Deterministic test eviction: candidates are selected in a fixed order,
/// lowest frame index first, to make concurrency tests reproducible.
pub struct SlowPolicy {
    candidate: Vec<bool>,
}

impl SlowPolicy {
    pub closed spec fn frame_count(&self) -> nat {
        self.candidate@.len()
    }

    pub closed spec fn eligible(&self, f: int) -> bool {
        0 <= f < self.candidate@.len() && self.candidate@[f]
    }

    pub closed spec fn wf(&self) -> bool {
        self.candidate@.len() <= u32::MAX
    }

    pub fn new(size: BufferFrameIdT) -> (p: SlowPolicy)
        ensures
            p.wf(),
            p.frame_count() == size,
            forall|f: int| p.eligible(f) <==> 0 <= f < size,
    {
        SlowPolicy { candidate: vec![true; size as usize] }
    }

    pub fn pin(&mut self, frame_id: BufferFrameIdT)
        requires
            old(self).wf(),
        ensures
            final(self).wf(),
            final(self).frame_count() == old(self).frame_count(),
            !final(self).eligible(frame_id as int),
            forall|g: int|
                g != frame_id ==> final(self).eligible(g) == old(self).eligible(g),
    {
        if (frame_id as usize) < self.candidate.len() {
            self.candidate[frame_id as usize] = false;
        }
    }

    pub fn unpin(&mut self, frame_id: BufferFrameIdT)
        requires
            old(self).wf(),
        ensures
            final(self).wf(),
            final(self).frame_count() == old(self).frame_count(),
            frame_id < old(self).frame_count() ==> final(self).eligible(frame_id as int),
            frame_id >= old(self).frame_count() ==> final(self).eligible(frame_id as int)
                == old(self).eligible(frame_id as int),
            forall|g: int|
                g != frame_id ==> final(self).eligible(g) == old(self).eligible(g),
    {
        if (frame_id as usize) < self.candidate.len() {
            self.candidate[frame_id as usize] = true;
        }
    }

    pub fn evict(&mut self) -> (r: Option<BufferFrameIdT>)
        requires
            old(self).wf(),
        ensures
            final(self).wf(),
            final(self).frame_count() == old(self).frame_count(),
            match r {
                Some(f) => f < old(self).frame_count() && old(self).eligible(f as int)
                    && !final(self).eligible(f as int) && forall|g: int|
                    g != f ==> final(self).eligible(g) == old(self).eligible(g),
                None => (forall|g: int| !old(self).eligible(g)) && forall|g: int|
                    final(self).eligible(g) == old(self).eligible(g),
            },
    {
        let n = self.candidate.len();
        let mut i: usize = 0;
        while i < n
            invariant
                old(self).wf(),
                n == self.candidate@.len(),
                i <= n,
                self.candidate@ == old(self).candidate@,
                forall|j: int| 0 <= j < i ==> !self.candidate@[j],
            decreases n - i,
        {
            if self.candidate[i] {
                self.candidate[i] = false;
                return Some(i as BufferFrameIdT);
            }
            i += 1;
        }
        None
    }
}

/// The closed set of eviction strategies behind one capability interface.
pub enum EvictionPolicy {
    Clock(ClockPolicy),
    LRU(LRUPolicy),
    Slow(SlowPolicy),
}

impl EvictionPolicy {
    /// How many frames the policy tracks.
    pub closed spec fn frame_count(&self) -> nat {
        match self {
            EvictionPolicy::Clock(p) => p.frame_count(),
            EvictionPolicy::LRU(p) => p.frame_count(),
            EvictionPolicy::Slow(p) => p.frame_count(),
        }
    }

    /// Whether frame `f` is currently a legal eviction candidate.
    pub closed spec fn eligible(&self, f: int) -> bool {
        match self {
            EvictionPolicy::Clock(p) => p.eligible(f),
            EvictionPolicy::LRU(p) => p.eligible(f),
            EvictionPolicy::Slow(p) => p.eligible(f),
        }
    }

    /// The selector this policy was built from.
    pub closed spec fn variant(&self) -> PolicyVariant {
        match self {
            EvictionPolicy::Clock(_) => PolicyVariant::Clock,
            EvictionPolicy::LRU(_) => PolicyVariant::LRU,
            EvictionPolicy::Slow(_) => PolicyVariant::Slow,
        }
    }

    pub closed spec fn wf(&self) -> bool {
        match self {
            EvictionPolicy::Clock(p) => p.wf(),
            EvictionPolicy::LRU(p) => p.wf(),
            EvictionPolicy::Slow(p) => p.wf(),
        }
    }

    /// Only tracked frames are ever candidates.
    pub proof fn lemma_eligible_in_range(&self)
        requires
            self.wf(),
        ensures
            forall|f: int| #[trigger] self.eligible(f) ==> 0 <= f < self.frame_count(),
    {
    }

    /// Build the selected policy variant over `size` frames; initially every
    /// frame is empty, so every frame is a candidate.
    pub fn new(variant: PolicyVariant, size: BufferFrameIdT) -> (p: EvictionPolicy)
        ensures
            p.wf(),
            p.frame_count() == size,
            p.variant() == variant,
            forall|f: int| p.eligible(f) <==> 0 <= f < size,
    {
        match variant {
            PolicyVariant::Clock => EvictionPolicy::Clock(ClockPolicy::new(size)),
            PolicyVariant::LRU => EvictionPolicy::LRU(LRUPolicy::new(size)),
            PolicyVariant::Slow => EvictionPolicy::Slow(SlowPolicy::new(size)),
        }
    }

    /// Remove `frame_id` from eviction candidacy. Idempotent.
    pub fn pin(&mut self, frame_id: BufferFrameIdT)
        requires
            old(self).wf(),
        ensures
            final(self).wf(),
            final(self).frame_count() == old(self).frame_count(),
            final(self).variant() == old(self).variant(),
            !final(self).eligible(frame_id as int),
            forall|g: int|
                g != frame_id ==> final(self).eligible(g) == old(self).eligible(g),
    {
        match self {
            EvictionPolicy::Clock(p) => p.pin(frame_id),
            EvictionPolicy::LRU(p) => p.pin(frame_id),
            EvictionPolicy::Slow(p) => p.pin(frame_id),
        }
    }

    /// Make `frame_id` a candidate again, recording the recency or reference
    /// information the strategy needs.
    pub fn unpin(&mut self, frame_id: BufferFrameIdT)
        requires
            old(self).wf(),
        ensures
            final(self).wf(),
            final(self).frame_count() == old(self).frame_count(),
            final(self).variant() == old(self).variant(),
            frame_id < old(self).frame_count() ==> final(self).eligible(frame_id as int),
            frame_id >= old(self).frame_count() ==> final(self).eligible(frame_id as int)
                == old(self).eligible(frame_id as int),
            forall|g: int|
                g != frame_id ==> final(self).eligible(g) == old(self).eligible(g),
    {
        match self {
            EvictionPolicy::Clock(p) => p.unpin(frame_id),
            EvictionPolicy::LRU(p) => p.unpin(frame_id),
            EvictionPolicy::Slow(p) => p.unpin(frame_id),
        }
    }

    /// Select a victim: some candidate frame, which stops being a candidate
    /// until it is unpinned again, or nothing when no candidate exists.
    /// A frame that is not a candidate — in particular a pinned one — is
    /// never returned, whatever the variant.
    pub fn evict(&mut self) -> (r: Option<BufferFrameIdT>)
        requires
            old(self).wf(),
        ensures
            final(self).wf(),
            final(self).frame_count() == old(self).frame_count(),
            final(self).variant() == old(self).variant(),
            match r {
                Some(f) => f < old(self).frame_count() && old(self).eligible(f as int)
                    && !final(self).eligible(f as int) && forall|g: int|
                    g != f ==> final(self).eligible(g) == old(self).eligible(g),
                None => (forall|g: int| !old(self).eligible(g)) && forall|g: int|
                    final(self).eligible(g) == old(self).eligible(g),
            },
    {
        match self {
            EvictionPolicy::Clock(p) => p.evict(),
            EvictionPolicy::LRU(p) => p.evict(),
            EvictionPolicy::Slow(p) => p.evict(),
        }
    }
}

} // verus!
