//! The buffer manager fetches and flushes the pages managed in memory,
//! composing the frame pool and page table, the disk manager, and an
//! eviction policy. It guarantees that the page table maps an identifier to
//! a frame exactly when that frame holds that page, and that a pinned page
//! is never chosen as an eviction victim.

use crate::buffer::eviction::EvictionPolicy;
use crate::buffer::eviction::PolicyVariant;
use crate::common::BufferFrameIdT;
use crate::common::PageIdT;
use crate::disk::manager::DiskManager;
use crate::page::Page;
use crate::page::PageVariant;
use crate::page::fresh_page_data;
use crate::page::variant_of_data;
use vstd::prelude::*;
use vstd::set::axiom_set_remove_len;
use vstd::set_lib::lemma_int_range;
use vstd::set_lib::lemma_len_subset;
use vstd::set_lib::lemma_set_empty_equivalency_len;
use vstd::set_lib::set_int_range;

verus! {

/// The fixed-size pool of frames plus the page table. A frame holds at most
/// one page; the page table maps a page identifier to the frame index where
/// it resides.
pub struct Buffer {
    pool: Vec<Option<Page>>,
    page_table: Vec<(PageIdT, BufferFrameIdT)>,
}

/// A caller's claim on one resident page: the page's identifier together
/// with the frame it resides in. A handle is returned with the pin taken;
/// the caller gives the claim up through `unpin_page`.
#[derive(Clone, Copy, PartialEq, Eq, Structural, Debug)]
pub struct PageHandle {
    pub page_id: PageIdT,
    pub frame_id: BufferFrameIdT,
}

/// Why a buffer operation was refused.
#[derive(Clone, Copy, PartialEq, Eq, Structural, Debug)]
pub enum BufferError {
    /// The page is neither resident nor, where disk access is permitted,
    /// present on disk.
    PageNotFound,
    /// The operation needs the page unpinned, but its pin count is positive.
    PagePinned,
    /// An unpin was attempted on a page whose pin count is already zero.
    PageNotPinned,
    /// Every frame holds a pinned page, so no victim frame exists.
    PoolExhausted,
}

/// Error returned when no buffer frames are open and every page occupying a
/// buffer frame is pinned and cannot be evicted.
#[derive(Debug)]
pub struct BufFrameErr {
    msg: String,
}

impl BufFrameErr {
    pub fn new() -> BufFrameErr {
        BufFrameErr { msg: "No available buffer frames, and all pages are pinned".to_owned() }
    }

    /// The human-readable description of the failure.
    pub fn message(&self) -> &String {
        &self.msg
    }
}

/// Whether the table holds the entry mapping `pid` to frame `fid`.
pub open spec fn table_has(
    t: Seq<(PageIdT, BufferFrameIdT)>,
    pid: PageIdT,
    fid: BufferFrameIdT,
) -> bool {
    exists|i: int| 0 <= i < t.len() && t[i] == (pid, fid)
}

/// Whether the table holds any entry for `pid`.
pub open spec fn table_has_pid(t: Seq<(PageIdT, BufferFrameIdT)>, pid: PageIdT) -> bool {
    exists|i: int| 0 <= i < t.len() && (#[trigger] t[i]).0 == pid
}

/// No page identifier occurs twice in the table.
pub open spec fn table_unique(t: Seq<(PageIdT, BufferFrameIdT)>) -> bool {
    forall|i: int, j: int|
        0 <= i < t.len() && 0 <= j < t.len() && i != j ==> (#[trigger] t[i]).0 != (
        #[trigger] t[j]).0
}

/// Remove the entry for `page_id` from the table, leaving every other entry
/// in place.
fn table_remove(t: &mut Vec<(PageIdT, BufferFrameIdT)>, page_id: PageIdT)
    requires
        table_unique(old(t)@),
    ensures
        table_unique(final(t)@),
        !table_has_pid(final(t)@, page_id),
        forall|p: PageIdT, f: BufferFrameIdT|
            p != page_id ==> table_has(final(t)@, p, f) == table_has(old(t)@, p, f),
        final(t)@.len() <= old(t)@.len(),
{
    let ghost t0 = t@;
    let mut i: usize = 0;
    while i < t.len()
        invariant
            table_unique(t0),
            t0 == old(t)@,
            t@ == t0,
            i <= t0.len(),
            forall|j: int| 0 <= j < i ==> (#[trigger] t0[j]).0 != page_id,
        decreases t0.len() - i,
    {
        if t[i].0 == page_id {
            t.remove(i);
            proof {
                t0.remove_ensures(i as int);
                let t1 = t@;
                assert(t1.len() == t0.len() - 1);
                assert(forall|j: int| 0 <= j < i ==> t1[j] == t0[j]);
                assert(forall|j: int| i <= j < t1.len() ==> t1[j] == t0[j + 1]);
                assert forall|j: int| 0 <= j < t1.len() implies (#[trigger] t1[j]).0
                    != page_id by {
                    if j < i {
                    } else {
                        assert(t1[j] == t0[j + 1]);
                        assert(t0[i as int].0 == page_id);
                    }
                }
                assert(!table_has_pid(t1, page_id));
                assert forall|p: PageIdT, f: BufferFrameIdT| p != page_id implies table_has(
                    t1,
                    p,
                    f,
                ) == table_has(t0, p, f) by {
                    if table_has(t0, p, f) {
                        let j = choose|j: int| 0 <= j < t0.len() && t0[j] == (p, f);
                        if j < i {
                            assert(t1[j] == (p, f));
                        } else {
                            assert(j != i);
                            assert(t1[j - 1] == (p, f));
                        }
                        assert(table_has(t1, p, f));
                    }
                    if table_has(t1, p, f) {
                        let j = choose|j: int| 0 <= j < t1.len() && t1[j] == (p, f);
                        if j < i {
                            assert(t0[j] == (p, f));
                        } else {
                            assert(t0[j + 1] == (p, f));
                        }
                        assert(table_has(t0, p, f));
                    }
                }
            }
            return;
        }
        i += 1;
    }
}

/// The frames of `post` match those of `pre` except possibly frame `f`.
pub open spec fn frames_unchanged_except(pre: BufferManager, post: BufferManager, f: int) -> bool {
    forall|g: int|
        0 <= g < pre.size() && g != f ==> (#[trigger] post.frame(g)) == pre.frame(g)
}

/// Eviction candidacy in `post` matches `pre` except possibly at frame `f`.
pub open spec fn avail_unchanged_except(pre: BufferManager, post: BufferManager, f: int) -> bool {
    forall|g: int| g != f ==> (#[trigger] post.available(g)) == pre.available(g)
}

/// No disk block's content changed.
pub open spec fn blocks_unchanged(pre: BufferManager, post: BufferManager) -> bool {
    forall|b: int| (#[trigger] post.block(b)) == pre.block(b)
}

/// No disk block's content changed, except possibly block `b0`.
pub open spec fn blocks_unchanged_except(pre: BufferManager, post: BufferManager, b0: int) -> bool {
    forall|b: int| b != b0 ==> (#[trigger] post.block(b)) == pre.block(b)
}

/// Flushing the page of frame `f` before reuse: if the frame holds a dirty
/// page, that page's block now carries the page's content and no other block
/// changed; otherwise the disk content is untouched.
pub open spec fn victim_flushed(pre: BufferManager, post: BufferManager, f: int) -> bool {
    if pre.occupied(f) && pre.dirty_of(f) {
        post.block(pre.id_of(f) as int) == Some(pre.data_of(f)) && blocks_unchanged_except(
            pre,
            post,
            pre.id_of(f) as int,
        )
    } else {
        blocks_unchanged(pre, post)
    }
}

/// The observable state is untouched: every error path of the buffer
/// manager guarantees this — no new page-table entry, no frame mutation, no
/// disk change, no change of eviction candidacy.
pub open spec fn unchanged(pre: BufferManager, post: BufferManager) -> bool {
    &&& post.size() == pre.size()
    &&& forall|g: int| 0 <= g < pre.size() ==> (#[trigger] post.frame(g)) == pre.frame(g)
    &&& post.pt() == pre.pt()
    &&& forall|g: int| (#[trigger] post.available(g)) == pre.available(g)
    &&& post.next_block_id() == pre.next_block_id()
    &&& blocks_unchanged(pre, post)
    &&& post.policy_variant() == pre.policy_variant()
}

/// Successful page creation: some victim frame that the policy counted as a
/// legal candidate was reclaimed (its old page flushed first if dirty), a
/// fresh block was allocated for the new page, and the new page sits in the
/// victim frame, pinned once, clean, freshly initialized, with a new
/// page-table entry; nothing else changed.
pub open spec fn create_ok(
    pre: BufferManager,
    post: BufferManager,
    variant: PageVariant,
    h: PageHandle,
) -> bool {
    &&& pre.has_available_frame()
    &&& post.size() == pre.size()
    &&& 0 <= h.frame_id < pre.size()
    &&& pre.available(h.frame_id as int)
    &&& h.page_id as int == pre.next_block_id()
    &&& post.next_block_id() == pre.next_block_id() + 1
    &&& !pre.resident(h.page_id)
    &&& post.frame_holds(h.frame_id as int, h.page_id)
    &&& post.frame_of(h.page_id) == h.frame_id
    &&& post.pins_of(h.frame_id as int) == 1
    &&& !post.dirty_of(h.frame_id as int)
    &&& post.variant_of(h.frame_id as int) == variant
    &&& post.data_of(h.frame_id as int) == fresh_page_data(variant)
    &&& frames_unchanged_except(pre, post, h.frame_id as int)
    &&& !post.available(h.frame_id as int)
    &&& avail_unchanged_except(pre, post, h.frame_id as int)
    &&& victim_flushed(pre, post, h.frame_id as int)
    &&& post.policy_variant() == pre.policy_variant()
}

/// Successful fetch of an already-resident page: its pin count rose by one,
/// it left eviction candidacy, and nothing else — no frame, no table entry,
/// no disk block — changed.
pub open spec fn fetch_hit_ok(
    pre: BufferManager,
    post: BufferManager,
    pid: PageIdT,
    h: PageHandle,
) -> bool {
    &&& h.page_id == pid
    &&& pre.resident(pid)
    &&& h.frame_id as int == pre.frame_of(pid)
    &&& post.size() == pre.size()
    &&& post.frame_holds(h.frame_id as int, pid)
    &&& post.pins_of(h.frame_id as int) == pre.pins_of(h.frame_id as int) + 1
    &&& post.data_of(h.frame_id as int) == pre.data_of(h.frame_id as int)
    &&& post.dirty_of(h.frame_id as int) == pre.dirty_of(h.frame_id as int)
    &&& post.variant_of(h.frame_id as int) == pre.variant_of(h.frame_id as int)
    &&& frames_unchanged_except(pre, post, h.frame_id as int)
    &&& !post.available(h.frame_id as int)
    &&& avail_unchanged_except(pre, post, h.frame_id as int)
    &&& post.pt() == pre.pt()
    &&& post.next_block_id() == pre.next_block_id()
    &&& blocks_unchanged(pre, post)
    &&& post.policy_variant() == pre.policy_variant()
}

/// Successful fetch of a non-resident page: a victim frame was reclaimed
/// (its page flushed first if dirty) and the requested block's content was
/// read back from disk into the frame, byte for byte, with the page pinned
/// once and clean; no block was allocated.
pub open spec fn fetch_miss_ok(
    pre: BufferManager,
    post: BufferManager,
    pid: PageIdT,
    h: PageHandle,
) -> bool {
    &&& h.page_id == pid
    &&& !pre.resident(pid)
    &&& pre.block(pid as int) is Some
    &&& pre.has_available_frame()
    &&& post.size() == pre.size()
    &&& 0 <= h.frame_id < pre.size()
    &&& pre.available(h.frame_id as int)
    &&& post.frame_holds(h.frame_id as int, pid)
    &&& post.frame_of(pid) == h.frame_id
    &&& post.pins_of(h.frame_id as int) == 1
    &&& !post.dirty_of(h.frame_id as int)
    &&& Some(post.data_of(h.frame_id as int)) == pre.block(pid as int)
    &&& post.variant_of(h.frame_id as int) == variant_of_data(
        post.data_of(h.frame_id as int),
    )
    &&& frames_unchanged_except(pre, post, h.frame_id as int)
    &&& !post.available(h.frame_id as int)
    &&& avail_unchanged_except(pre, post, h.frame_id as int)
    &&& post.next_block_id() == pre.next_block_id()
    &&& victim_flushed(pre, post, h.frame_id as int)
    &&& post.policy_variant() == pre.policy_variant()
}

/// Successful deletion: the page was resident and unpinned; its frame is
/// empty again and a legal eviction candidate, its table entry is gone, and
/// its disk block is deallocated. Nothing else changed.
pub open spec fn delete_ok(pre: BufferManager, post: BufferManager, pid: PageIdT) -> bool {
    &&& pre.resident(pid)
    &&& pre.page_pins(pid) == 0
    &&& !post.resident(pid)
    &&& post.size() == pre.size()
    &&& post.frame(pre.frame_of(pid)) is None
    &&& frames_unchanged_except(pre, post, pre.frame_of(pid))
    &&& post.available(pre.frame_of(pid))
    &&& avail_unchanged_except(pre, post, pre.frame_of(pid))
    &&& post.next_block_id() == pre.next_block_id()
    &&& post.block(pid as int) is None
    &&& blocks_unchanged_except(pre, post, pid as int)
    &&& post.policy_variant() == pre.policy_variant()
}

/// Successful flush: the resident page's content went to its block on disk
/// and its dirty flag cleared; pins, candidacy and everything else are
/// untouched.
pub open spec fn flush_ok(pre: BufferManager, post: BufferManager, pid: PageIdT) -> bool {
    let fi = pre.frame_of(pid);
    &&& pre.resident(pid)
    &&& post.size() == pre.size()
    &&& post.frame_holds(fi, pid)
    &&& post.pins_of(fi) == pre.pins_of(fi)
    &&& post.data_of(fi) == pre.data_of(fi)
    &&& post.variant_of(fi) == pre.variant_of(fi)
    &&& !post.dirty_of(fi)
    &&& frames_unchanged_except(pre, post, fi)
    &&& forall|g: int| (#[trigger] post.available(g)) == pre.available(g)
    &&& post.pt() == pre.pt()
    &&& post.next_block_id() == pre.next_block_id()
    &&& post.block(pid as int) == Some(pre.page_data(pid))
    &&& blocks_unchanged_except(pre, post, pid as int)
    &&& post.policy_variant() == pre.policy_variant()
}

/// Successful pin: the resident page's pin count rose by one and the frame
/// left eviction candidacy; nothing else changed.
pub open spec fn pin_ok(pre: BufferManager, post: BufferManager, pid: PageIdT) -> bool {
    let fi = pre.frame_of(pid);
    &&& pre.resident(pid)
    &&& post.size() == pre.size()
    &&& post.frame_holds(fi, pid)
    &&& post.pins_of(fi) == pre.pins_of(fi) + 1
    &&& post.data_of(fi) == pre.data_of(fi)
    &&& post.dirty_of(fi) == pre.dirty_of(fi)
    &&& post.variant_of(fi) == pre.variant_of(fi)
    &&& frames_unchanged_except(pre, post, fi)
    &&& !post.available(fi)
    &&& avail_unchanged_except(pre, post, fi)
    &&& post.pt() == pre.pt()
    &&& post.next_block_id() == pre.next_block_id()
    &&& blocks_unchanged(pre, post)
    &&& post.policy_variant() == pre.policy_variant()
}

/// Successful unpin: the resident page's pin count dropped by one; the frame
/// re-enters eviction candidacy exactly when the last pin was given up.
pub open spec fn unpin_ok(pre: BufferManager, post: BufferManager, pid: PageIdT) -> bool {
    let fi = pre.frame_of(pid);
    &&& pre.resident(pid)
    &&& pre.page_pins(pid) > 0
    &&& post.size() == pre.size()
    &&& post.frame_holds(fi, pid)
    &&& post.pins_of(fi) == pre.pins_of(fi) - 1
    &&& post.data_of(fi) == pre.data_of(fi)
    &&& post.dirty_of(fi) == pre.dirty_of(fi)
    &&& post.variant_of(fi) == pre.variant_of(fi)
    &&& frames_unchanged_except(pre, post, fi)
    &&& (post.available(fi) <==> pre.page_pins(pid) == 1)
    &&& avail_unchanged_except(pre, post, fi)
    &&& post.pt() == pre.pt()
    &&& post.next_block_id() == pre.next_block_id()
    &&& blocks_unchanged(pre, post)
    &&& post.policy_variant() == pre.policy_variant()
}

/// Successful write through a handle: the resident page carries the new
/// content and is marked dirty; pins, candidacy, table and disk are
/// untouched.
pub open spec fn write_ok(
    pre: BufferManager,
    post: BufferManager,
    pid: PageIdT,
    data: Seq<u8>,
) -> bool {
    let fi = pre.frame_of(pid);
    &&& pre.resident(pid)
    &&& post.size() == pre.size()
    &&& post.frame_holds(fi, pid)
    &&& post.pins_of(fi) == pre.pins_of(fi)
    &&& post.data_of(fi) == data
    &&& post.dirty_of(fi)
    &&& post.variant_of(fi) == pre.variant_of(fi)
    &&& frames_unchanged_except(pre, post, fi)
    &&& forall|g: int| (#[trigger] post.available(g)) == pre.available(g)
    &&& post.pt() == pre.pt()
    &&& post.next_block_id() == pre.next_block_id()
    &&& blocks_unchanged(pre, post)
    &&& post.policy_variant() == pre.policy_variant()
}

/// Result of flushing every page: each frame keeps its page, pins and
/// content, every dirty flag is clear, each dirty page's content went to its
/// block, and no other block changed.
pub open spec fn flush_all_ok(pre: BufferManager, post: BufferManager) -> bool {
    &&& post.size() == pre.size()
    &&& post.pt() == pre.pt()
    &&& forall|f: int|
        0 <= f < pre.size() ==> (#[trigger] post.occupied(f)) == pre.occupied(f)
            && post.id_of(f) == pre.id_of(f) && post.pins_of(f) == pre.pins_of(f)
            && post.data_of(f) == pre.data_of(f) && post.variant_of(f) == pre.variant_of(f)
            && !post.dirty_of(f)
    &&& forall|g: int| (#[trigger] post.available(g)) == pre.available(g)
    &&& post.next_block_id() == pre.next_block_id()
    &&& forall|f: int|
        0 <= f < pre.size() && (#[trigger] pre.occupied(f)) && pre.dirty_of(f)
            ==> post.block(pre.id_of(f) as int) == Some(pre.data_of(f))
    &&& forall|b: int|
        (forall|f: int|
            0 <= f < pre.size() ==> !((#[trigger] pre.occupied(f)) && pre.dirty_of(f)
                && pre.id_of(f) == b)) ==> (#[trigger] post.block(b)) == pre.block(b)
    &&& post.policy_variant() == pre.policy_variant()
}

/// The buffer manager: the public interface for creating, fetching,
/// deleting, flushing, pinning and unpinning pages.
pub struct BufferManager {
    buffer: Buffer,
    disk_manager: DiskManager,
    evict_policy: EvictionPolicy,
}

impl BufferManager {
    /// Number of frames in the pool.
    pub closed spec fn size(&self) -> nat {
        self.buffer.pool@.len()
    }

    /// Content of frame `f`.
    pub closed spec fn frame(&self, f: int) -> Option<Page> {
        self.buffer.pool@[f]
    }

    /// The page table as a sequence of (page identifier, frame index) pairs.
    pub closed spec fn pt(&self) -> Seq<(PageIdT, BufferFrameIdT)> {
        self.buffer.page_table@
    }

    /// Whether frame `f` currently holds a page.
    pub open spec fn occupied(&self, f: int) -> bool {
        0 <= f < self.size() && self.frame(f) is Some
    }

    /// Identifier of the page in frame `f` (zero for an empty frame).
    pub closed spec fn id_of(&self, f: int) -> PageIdT {
        match self.frame(f) {
            Some(p) => p.id(),
            None => 0,
        }
    }

    /// Pin count of the page in frame `f` (zero for an empty frame).
    pub closed spec fn pins_of(&self, f: int) -> u32 {
        match self.frame(f) {
            Some(p) => p.pins(),
            None => 0,
        }
    }

    /// Dirty flag of the page in frame `f` (clean for an empty frame).
    pub closed spec fn dirty_of(&self, f: int) -> bool {
        match self.frame(f) {
            Some(p) => p.dirty(),
            None => false,
        }
    }

    /// Content of the page in frame `f` (empty for an empty frame).
    pub closed spec fn data_of(&self, f: int) -> Seq<u8> {
        match self.frame(f) {
            Some(p) => p.data(),
            None => Seq::empty(),
        }
    }

    /// Variant of the page in frame `f`.
    pub closed spec fn variant_of(&self, f: int) -> PageVariant {
        match self.frame(f) {
            Some(p) => p.variant(),
            None => PageVariant::Relation,
        }
    }

    /// Whether frame `f` holds the page `pid`.
    pub open spec fn frame_holds(&self, f: int, pid: PageIdT) -> bool {
        self.occupied(f) && self.id_of(f) == pid
    }

    /// Whether page `pid` currently resides in some frame.
    pub open spec fn resident(&self, pid: PageIdT) -> bool {
        exists|f: int| self.frame_holds(f, pid)
    }

    /// The frame in which page `pid` resides.
    pub open spec fn frame_of(&self, pid: PageIdT) -> int {
        choose|f: int| self.frame_holds(f, pid)
    }

    /// Pin count of resident page `pid`.
    pub open spec fn page_pins(&self, pid: PageIdT) -> u32 {
        self.pins_of(self.frame_of(pid))
    }

    /// Content of resident page `pid`.
    pub open spec fn page_data(&self, pid: PageIdT) -> Seq<u8> {
        self.data_of(self.frame_of(pid))
    }

    /// Dirty flag of resident page `pid`.
    pub open spec fn page_dirty(&self, pid: PageIdT) -> bool {
        self.dirty_of(self.frame_of(pid))
    }

    /// Whether the eviction policy counts frame `f` as a legal victim.
    pub closed spec fn available(&self, f: int) -> bool {
        self.evict_policy.eligible(f)
    }

    /// Whether any frame can be reclaimed right now.
    pub open spec fn has_available_frame(&self) -> bool {
        exists|f: int| self.available(f)
    }

    /// The eviction strategy this manager was built with.
    pub closed spec fn policy_variant(&self) -> PolicyVariant {
        self.evict_policy.variant()
    }

    /// Next block identifier the disk manager will allocate.
    pub closed spec fn next_block_id(&self) -> int {
        self.disk_manager.next_block_id()
    }

    /// Content of disk block `id`.
    pub closed spec fn block(&self, id: int) -> Option<Seq<u8>> {
        self.disk_manager.block(id)
    }

    /// Whether a frame may be reclaimed as far as its own state goes: it is
    /// empty, or its page has no pins.
    pub open spec fn frame_available(&self, f: int) -> bool {
        match self.frame(f) {
            Some(p) => p.pins() == 0,
            None => true,
        }
    }

    /// The manager's invariant:
    /// - the underlying disk store and policy are well formed and the policy
    ///   tracks exactly the pool's frames;
    /// - every resident page is well formed and backed by an allocated block;
    /// - the page table holds an entry exactly for each resident page, and
    ///   maps it to the frame holding it;
    /// - a frame is an eviction candidate exactly when it is empty or its
    ///   page's pin count is zero — so a pinned page is never a victim.
    pub closed spec fn wf(&self) -> bool {
        &&& self.disk_manager.wf()
        &&& self.evict_policy.wf()
        &&& self.evict_policy.frame_count() == self.size()
        &&& self.size() <= u32::MAX
        &&& forall|f: int|
            0 <= f < self.size() ==> match #[trigger] self.frame(f) {
                Some(p) => p.wf() && (p.id() as int) < self.next_block_id(),
                None => true,
            }
        &&& table_unique(self.pt())
        &&& forall|i: int|
            0 <= i < self.pt().len() ==> self.frame_holds(
                (#[trigger] self.pt()[i]).1 as int,
                self.pt()[i].0,
            )
        &&& forall|f: int|
            #![trigger self.id_of(f)]
            0 <= f < self.size() && self.occupied(f) ==> table_has(
                self.pt(),
                self.id_of(f),
                f as BufferFrameIdT,
            )
        &&& forall|f: int|
            0 <= f < self.size() ==> (#[trigger] self.available(f) <==> self.frame_available(f))
    }

    /// Two frames never hold the same page.
    pub proof fn lemma_frame_unique(&self, f1: int, f2: int, pid: PageIdT)
        requires
            self.wf(),
            self.frame_holds(f1, pid),
            self.frame_holds(f2, pid),
        ensures
            f1 == f2,
    {
        assert(table_has(self.pt(), pid, f1 as BufferFrameIdT));
        assert(table_has(self.pt(), pid, f2 as BufferFrameIdT));
        let i = choose|i: int|
            0 <= i < self.pt().len() && self.pt()[i] == (pid, f1 as BufferFrameIdT);
        let j = choose|j: int|
            0 <= j < self.pt().len() && self.pt()[j] == (pid, f2 as BufferFrameIdT);
        if i != j {
            assert(self.pt()[i].0 != self.pt()[j].0);
        }
    }

    /// For a resident page, `frame_of` names exactly the frame holding it.
    pub proof fn lemma_frame_of(&self, f: int, pid: PageIdT)
        requires
            self.wf(),
            self.frame_holds(f, pid),
        ensures
            self.frame_of(pid) == f,
            self.resident(pid),
    {
        let g = choose|g: int| self.frame_holds(g, pid);
        self.lemma_frame_unique(f, g, pid);
    }

    /// A victim frame named by the policy is within the pool.
    pub proof fn lemma_available_in_range(&self)
        requires
            self.wf(),
        ensures
            forall|f: int| #[trigger] self.available(f) ==> 0 <= f < self.size(),
    {
        self.evict_policy.lemma_eligible_in_range();
    }

    /// A step that touched neither the frames, the page table nor the disk,
    /// and left every frame's candidacy as it was — at most the policy's
    /// internal bookkeeping moved — preserves the invariant and counts as no
    /// observable mutation.
    proof fn lemma_unchanged_buffer_wf(pre: Self, post: Self)
        requires
            pre.wf(),
            post.buffer == pre.buffer,
            post.disk_manager == pre.disk_manager,
            post.evict_policy.wf(),
            post.evict_policy.frame_count() == pre.evict_policy.frame_count(),
            post.policy_variant() == pre.policy_variant(),
            forall|f: int| (#[trigger] post.available(f)) == pre.available(f),
        ensures
            post.wf(),
            unchanged(pre, post),
    {
        assert(post.pt() == pre.pt());
        assert(forall|f: int| (#[trigger] post.frame(f)) == pre.frame(f));
        assert(post.size() == pre.size());
        assert(post.next_block_id() == pre.next_block_id());
        assert(forall|b: int| (#[trigger] post.block(b)) == pre.block(b));
        assert forall|f: int|
            0 <= f < post.size() implies match #[trigger] post.frame(f) {
            Some(p) => p.wf() && (p.id() as int) < post.next_block_id(),
            None => true,
        } by {
            assert(post.frame(f) == pre.frame(f));
        }
        assert forall|i: int|
            0 <= i < post.pt().len() implies post.frame_holds(
            (#[trigger] post.pt()[i]).1 as int,
            post.pt()[i].0,
        ) by {
            assert(pre.frame_holds(pre.pt()[i].1 as int, pre.pt()[i].0));
            assert(post.frame(post.pt()[i].1 as int) == pre.frame(pre.pt()[i].1 as int));
        }
        assert forall|f: int|
            #![trigger post.id_of(f)]
            0 <= f < post.size() && post.occupied(f) implies table_has(
            post.pt(),
            post.id_of(f),
            f as BufferFrameIdT,
        ) by {
            assert(post.frame(f) == pre.frame(f));
            assert(pre.occupied(f));
            assert(post.id_of(f) == pre.id_of(f));
        }
        assert forall|f: int|
            0 <= f < post.size() implies ((#[trigger] post.available(f))
                <==> post.frame_available(f)) by {
            assert(post.frame(f) == pre.frame(f));
            assert(pre.available(f) <==> pre.frame_available(f));
        }
    }

    /// A step that replaced the page of one frame `fi` by a page named
    /// `new_pid` — removing the old page's table entry (into `tmid`), adding
    /// the new one, and leaving every other frame alone — preserves the
    /// invariant, provided the new page is well formed, its block is
    /// allocated, no other frame holds `new_pid`, and the policy was kept in
    /// step at `fi`.
    proof fn lemma_page_installed(
        pre: Self,
        post: Self,
        fi: int,
        tmid: Seq<(PageIdT, BufferFrameIdT)>,
        new_pid: PageIdT,
    )
        requires
            pre.wf(),
            0 <= fi < pre.size(),
            fi < u32::MAX,
            post.size() == pre.size(),
            post.disk_manager.wf(),
            post.next_block_id() >= pre.next_block_id(),
            (new_pid as int) < post.next_block_id(),
            (match pre.frame(fi) {
                Some(p) => table_unique(tmid) && !table_has_pid(tmid, p.id()) && (forall|
                    q: PageIdT,
                    g: BufferFrameIdT,
                |
                    q != p.id() ==> table_has(tmid, q, g) == table_has(pre.pt(), q, g)),
                None => tmid == pre.pt(),
            }),
            post.pt() == tmid.push((new_pid, fi as BufferFrameIdT)),
            (match post.frame(fi) {
                Some(p) => p.wf() && p.id() == new_pid,
                None => false,
            }),
            frames_unchanged_except(pre, post, fi),
            forall|g: int| g != fi ==> !pre.frame_holds(g, new_pid),
            post.evict_policy.wf(),
            post.evict_policy.frame_count() == pre.evict_policy.frame_count(),
            (post.available(fi) <==> post.frame_available(fi)),
            forall|g: int| g != fi ==> (#[trigger] post.available(g)) == pre.available(g),
        ensures
            post.wf(),
            post.frame_holds(fi, new_pid),
            post.frame_of(new_pid) == fi,
    {
        assert(post.frame_holds(fi, new_pid));
        assert(forall|i: int| 0 <= i < tmid.len() ==> post.pt()[i] == tmid[i]);
        assert(post.pt()[post.pt().len() - 1] == (new_pid, fi as BufferFrameIdT));

        // Every kept entry is an old entry, does not name the victim frame's
        // old page, and points at a frame other than `fi`.
        assert forall|i: int|
            0 <= i < tmid.len() implies table_has(pre.pt(), (#[trigger] tmid[i]).0, tmid[i].1)
                && pre.frame_holds(tmid[i].1 as int, tmid[i].0) && tmid[i].1 as int != fi by {
            let e = tmid[i];
            assert(table_has(tmid, e.0, e.1));
            match pre.frame(fi) {
                Some(p) => {
                    assert(e.0 != p.id());
                    assert(table_has(pre.pt(), e.0, e.1));
                },
                None => {},
            }
            let j = choose|j: int| 0 <= j < pre.pt().len() && pre.pt()[j] == (e.0, e.1);
            assert(pre.frame_holds(e.1 as int, e.0));
            if e.1 as int == fi {
                match pre.frame(fi) {
                    Some(p) => {
                        assert(e.0 == pre.id_of(fi));
                        assert(false);
                    },
                    None => {
                        assert(pre.occupied(fi));
                        assert(false);
                    },
                }
            }
        }

        // Table entries point at frames holding their pages.
        assert forall|i: int|
            0 <= i < post.pt().len() implies post.frame_holds(
            (#[trigger] post.pt()[i]).1 as int,
            post.pt()[i].0,
        ) by {
            let e = post.pt()[i];
            if i < post.pt().len() - 1 {
                assert(e == tmid[i]);
                assert(post.frame(e.1 as int) == pre.frame(e.1 as int));
                assert(post.frame_holds(e.1 as int, e.0));
            }
        }

        // No page identifier occurs twice: kept keys belong to pages resident
        // in frames other than `fi`, and no such frame holds `new_pid`.
        assert forall|i: int|
            0 <= i < tmid.len() implies (#[trigger] tmid[i]).0 != new_pid by {
            assert(pre.frame_holds(tmid[i].1 as int, tmid[i].0));
            assert(!pre.frame_holds(tmid[i].1 as int, new_pid));
        }
        assert forall|i: int, j: int|
            0 <= i < post.pt().len() && 0 <= j < post.pt().len() && i != j implies (
            #[trigger] post.pt()[i]).0 != (#[trigger] post.pt()[j]).0 by {
            let last = post.pt().len() - 1;
            if i < last && j < last {
                assert(tmid[i].0 != tmid[j].0);
            }
        }

        // Every occupied frame still has its entry.
        assert forall|f: int|
            #![trigger post.id_of(f)]
            0 <= f < post.size() && post.occupied(f) implies table_has(
            post.pt(),
            post.id_of(f),
            f as BufferFrameIdT,
        ) by {
            if f == fi {
                assert(post.pt()[post.pt().len() - 1] == (new_pid, fi as BufferFrameIdT));
                assert(table_has(post.pt(), new_pid, fi as BufferFrameIdT));
                assert(post.id_of(f) == new_pid);
            } else {
                assert(post.frame(f) == pre.frame(f));
                assert(pre.occupied(f));
                let pid_f = pre.id_of(f);
                assert(table_has(pre.pt(), pid_f, f as BufferFrameIdT));
                match pre.frame(fi) {
                    Some(p) => {
                        if pid_f == p.id() {
                            pre.lemma_frame_unique(f, fi, pid_f);
                        }
                        assert(table_has(tmid, pid_f, f as BufferFrameIdT));
                    },
                    None => {},
                }
                let k = choose|k: int|
                    0 <= k < tmid.len() && tmid[k] == (pid_f, f as BufferFrameIdT);
                assert(post.pt()[k] == (pid_f, f as BufferFrameIdT));
                assert(table_has(post.pt(), pid_f, f as BufferFrameIdT));
            }
        }

        // Every resident page is well formed and backed by an allocated block.
        assert forall|f: int|
            0 <= f < post.size() implies match #[trigger] post.frame(f) {
            Some(p) => p.wf() && (p.id() as int) < post.next_block_id(),
            None => true,
        } by {
            if f != fi {
                assert(post.frame(f) == pre.frame(f));
            }
        }

        // Candidacy matches frame state on every frame.
        assert forall|f: int|
            0 <= f < post.size() implies ((#[trigger] post.available(f))
                <==> post.frame_available(f)) by {
            if f != fi {
                assert(post.frame(f) == pre.frame(f));
                assert(pre.available(f) <==> pre.frame_available(f));
            }
        }

        assert(post.wf());
        post.lemma_frame_of(fi, new_pid);
    }

    /// A step that changed one occupied frame's page in place — same page
    /// identifier, possibly different pin count, dirty flag or content — and
    /// kept the policy in step at that frame, preserves the invariant.
    proof fn lemma_page_updated(pre: Self, post: Self, fi: int)
        requires
            pre.wf(),
            0 <= fi < pre.size(),
            post.size() == pre.size(),
            post.pt() == pre.pt(),
            post.disk_manager.wf(),
            post.next_block_id() == pre.next_block_id(),
            pre.occupied(fi),
            (match post.frame(fi) {
                Some(p) => p.wf() && p.id() == pre.id_of(fi),
                None => false,
            }),
            frames_unchanged_except(pre, post, fi),
            post.evict_policy.wf(),
            post.evict_policy.frame_count() == pre.evict_policy.frame_count(),
            (post.available(fi) <==> post.frame_available(fi)),
            forall|g: int| g != fi ==> (#[trigger] post.available(g)) == pre.available(g),
        ensures
            post.wf(),
    {
        assert((pre.id_of(fi) as int) < pre.next_block_id());
        assert forall|i: int|
            0 <= i < post.pt().len() implies post.frame_holds(
            (#[trigger] post.pt()[i]).1 as int,
            post.pt()[i].0,
        ) by {
            let e = post.pt()[i];
            assert(pre.frame_holds(e.1 as int, e.0));
            if e.1 as int != fi {
                assert(post.frame(e.1 as int) == pre.frame(e.1 as int));
            } else {
                assert(e.0 == pre.id_of(fi));
            }
        }
        assert forall|f: int|
            #![trigger post.id_of(f)]
            0 <= f < post.size() && post.occupied(f) implies table_has(
            post.pt(),
            post.id_of(f),
            f as BufferFrameIdT,
        ) by {
            if f == fi {
                assert(post.id_of(f) == pre.id_of(f));
            } else {
                assert(post.frame(f) == pre.frame(f));
            }
            assert(pre.occupied(f));
            assert(table_has(pre.pt(), pre.id_of(f), f as BufferFrameIdT));
        }
        assert forall|f: int|
            0 <= f < post.size() implies match #[trigger] post.frame(f) {
            Some(p) => p.wf() && (p.id() as int) < post.next_block_id(),
            None => true,
        } by {
            if f != fi {
                assert(post.frame(f) == pre.frame(f));
            }
        }
        assert forall|f: int|
            0 <= f < post.size() implies ((#[trigger] post.available(f))
                <==> post.frame_available(f)) by {
            if f != fi {
                assert(post.frame(f) == pre.frame(f));
                assert(pre.available(f) <==> pre.frame_available(f));
            }
        }
    }

    /// The set of frames currently holding a page.
    pub open spec fn occupied_frames(&self) -> Set<int> {
        Set::new(|f: int| self.occupied(f))
    }

    /// How many frames currently hold a page.
    pub open spec fn occupied_count(&self) -> nat {
        self.occupied_frames().len()
    }

    /// The set of frames the policy counts as victim candidates.
    pub open spec fn available_frames(&self) -> Set<int> {
        Set::new(|f: int| self.available(f))
    }

    /// How many frames the policy counts as victim candidates.
    pub open spec fn available_count(&self) -> nat {
        self.available_frames().len()
    }

    /// However the pool was driven there by creates, fetches, deletes, pins
    /// and unpins, the number of frames simultaneously holding a page never
    /// exceeds the pool size.
    pub proof fn lemma_occupied_bounded(&self)
        ensures
            self.occupied_count() <= self.size(),
            self.occupied_frames().finite(),
    {
        let s = self.occupied_frames();
        let r = set_int_range(0, self.size() as int);
        assert(s.subset_of(r));
        lemma_int_range(0, self.size() as int);
        lemma_len_subset(s, r);
    }

    /// A frame the policy counts as a victim candidate — so any frame its
    /// `evict` can return, whatever the policy variant — holds no pinned
    /// page: its page's pin count is zero, or it is empty.
    pub proof fn lemma_victim_unpinned(&self, f: int)
        requires
            self.wf(),
            self.available(f),
        ensures
            self.pins_of(f) == 0,
    {
        self.lemma_available_in_range();
    }

    /// There is a victim candidate exactly when the candidate count is
    /// positive.
    pub proof fn lemma_available_count_positive(&self)
        requires
            self.wf(),
        ensures
            self.available_frames().finite(),
            self.has_available_frame() <==> self.available_count() > 0,
    {
        self.lemma_available_in_range();
        let s = self.available_frames();
        let r = set_int_range(0, self.size() as int);
        assert(s.subset_of(r));
        lemma_int_range(0, self.size() as int);
        lemma_len_subset(s, r);
        lemma_set_empty_equivalency_len(s);
        if self.has_available_frame() {
            let f = choose|f: int| self.available(f);
            assert(s.contains(f));
        }
        if s.len() > 0 {
            assert(!s.is_empty());
            let f = s.choose();
            assert(self.available(f));
        }
    }

    /// In a manager where every frame is a candidate — a freshly built one —
    /// the candidate count equals the pool size.
    pub proof fn lemma_all_available_count(&self)
        requires
            forall|f: int| (#[trigger] self.available(f)) <==> 0 <= f < self.size(),
        ensures
            self.available_count() == self.size(),
    {
        assert(self.available_frames() =~= set_int_range(0, self.size() as int));
        lemma_int_range(0, self.size() as int);
    }

    /// Each successful page creation consumes exactly one victim candidate:
    /// starting from a fresh pool of `N` candidates, `N` creations succeed
    /// and the next one finds no candidate and fails with pool exhaustion.
    pub proof fn lemma_create_consumes_one_candidate(
        pre: Self,
        post: Self,
        variant: PageVariant,
        h: PageHandle,
    )
        requires
            pre.wf(),
            create_ok(pre, post, variant, h),
        ensures
            pre.available_count() > 0,
            post.available_count() == pre.available_count() - 1,
    {
        let fi = h.frame_id as int;
        pre.lemma_available_count_positive();
        let sa = pre.available_frames();
        let sb = post.available_frames();
        assert(sa.contains(fi));
        assert forall|g: int| #[trigger] sb.contains(g) implies sa.remove(fi).contains(g) by {
            assert(post.available(g));
            assert(g != fi);
            assert(pre.available(g));
        }
        assert forall|g: int| #[trigger] sa.remove(fi).contains(g) implies sb.contains(g) by {
            assert(g != fi && pre.available(g));
            assert(post.available(g));
        }
        assert(sb =~= sa.remove(fi));
        axiom_set_remove_len(sa, fi);
    }

    /// Round trip through eviction: a resident dirty page whose frame is
    /// reclaimed by a page creation is flushed to its block, and a later
    /// fetch of its identifier returns content byte-identical to what the
    /// page held when it was evicted.
    pub proof fn lemma_evict_flush_fetch_round_trip(
        pre: Self,
        mid: Self,
        post: Self,
        variant: PageVariant,
        hc: PageHandle,
        hf: PageHandle,
        pid: PageIdT,
    )
        requires
            pre.wf(),
            pre.resident(pid),
            pre.page_dirty(pid),
            hc.frame_id as int == pre.frame_of(pid),
            create_ok(pre, mid, variant, hc),
            fetch_miss_ok(mid, post, pid, hf),
        ensures
            post.page_data(pid) == pre.page_data(pid),
            post.resident(pid),
    {
        let fi = pre.frame_of(pid);
        assert(pre.frame_holds(fi, pid));
        assert(pre.occupied(fi) && pre.id_of(fi) == pid && pre.dirty_of(fi));
        assert(mid.block(pid as int) == Some(pre.data_of(fi)));
        assert(Some(post.data_of(hf.frame_id as int)) == mid.block(pid as int));
        assert(post.frame_of(pid) == hf.frame_id);
    }

    /// A flushed page fetched back after it left the pool returns exactly
    /// the bytes that were flushed, provided its block was not rewritten in
    /// between.
    pub proof fn lemma_flush_fetch_round_trip(
        flushed: Self,
        later: Self,
        post: Self,
        pid: PageIdT,
        d: Seq<u8>,
        h: PageHandle,
    )
        requires
            flushed.block(pid as int) == Some(d),
            later.block(pid as int) == flushed.block(pid as int),
            fetch_miss_ok(later, post, pid, h),
        ensures
            post.page_data(pid) == d,
    {
        assert(Some(post.data_of(h.frame_id as int)) == later.block(pid as int));
    }

    /// Unpinning the last pin restores exactly the state deletion asks for:
    /// a delete that failed with a pinned-page violation succeeds after the
    /// page's only pin is given up, since the page is then resident with pin
    /// count zero.
    pub proof fn lemma_unpin_enables_delete(pre: Self, post: Self, pid: PageIdT)
        requires
            pre.wf(),
            post.wf(),
            unpin_ok(pre, post, pid),
            pre.page_pins(pid) == 1,
        ensures
            post.resident(pid),
            post.page_pins(pid) == 0,
    {
        let fi = pre.frame_of(pid);
        assert(post.frame_holds(fi, pid));
        post.lemma_frame_of(fi, pid);
    }

    /// A page just created is resident under its returned identifier, pinned
    /// once, with freshly initialized content — so a fetch of that
    /// identifier, from any caller sequenced after the creation, is a hit
    /// and hands back the same content.
    pub proof fn lemma_created_page_resident(
        pre: Self,
        post: Self,
        variant: PageVariant,
        h: PageHandle,
    )
        requires
            post.wf(),
            create_ok(pre, post, variant, h),
        ensures
            post.resident(h.page_id),
            post.frame_of(h.page_id) == h.frame_id,
            post.page_pins(h.page_id) == 1,
            post.page_data(h.page_id) == fresh_page_data(variant),
    {
        assert(post.frame_holds(h.frame_id as int, h.page_id));
    }

    /// Construct a new buffer manager over `buffer_size` empty frames.
    pub fn new(
        buffer_size: BufferFrameIdT,
        disk_manager: DiskManager,
        evict_policy: PolicyVariant,
    ) -> (m: BufferManager)
        requires
            disk_manager.wf(),
        ensures
            m.wf(),
            m.size() == buffer_size,
            m.policy_variant() == evict_policy,
            forall|f: int| 0 <= f < buffer_size ==> (#[trigger] m.frame(f)) is None,
            forall|pid: PageIdT| !m.resident(pid),
            forall|f: int| #[trigger] m.available(f) <==> 0 <= f < buffer_size,
            m.next_block_id() == disk_manager.next_block_id(),
            forall|b: int| m.block(b) == disk_manager.block(b),
    {
        let policy = EvictionPolicy::new(evict_policy, buffer_size);
        let mut pool: Vec<Option<Page>> = Vec::new();
        let mut i: BufferFrameIdT = 0;
        while i < buffer_size
            invariant
                i <= buffer_size,
                pool@.len() == i,
                forall|f: int| 0 <= f < i ==> (#[trigger] pool@[f]) is None,
            decreases buffer_size - i,
        {
            pool.push(None);
            i += 1;
        }
        let m = BufferManager {
            buffer: Buffer { pool, page_table: Vec::new() },
            disk_manager,
            evict_policy: policy,
        };
        proof {
            assert forall|pid: PageIdT| !m.resident(pid) by {
                assert(forall|f: int| !m.frame_holds(f, pid));
            }
        }
        m
    }

    /// Find the specified page in the page table and return the index of
    /// the frame holding it, or nothing when the page is not resident.
    fn _page_table_lookup(&self, page_id: PageIdT) -> (r: Option<BufferFrameIdT>)
        requires
            self.wf(),
        ensures
            match r {
                Some(f) => self.frame_holds(f as int, page_id) && f as int == self.frame_of(
                    page_id,
                ),
                None => !self.resident(page_id),
            },
    {
        let t = &self.buffer.page_table;
        let mut i: usize = 0;
        while i < t.len()
            invariant
                self.wf(),
                t == &self.buffer.page_table,
                i <= t@.len(),
                forall|j: int| 0 <= j < i ==> (#[trigger] t@[j]).0 != page_id,
            decreases t@.len() - i,
        {
            if t[i].0 == page_id {
                let f = t[i].1;
                proof {
                    assert(self.frame_holds(f as int, page_id));
                    self.lemma_frame_of(f as int, page_id);
                }
                return Some(f);
            }
            i += 1;
        }
        proof {
            assert forall|f: int| !self.frame_holds(f, page_id) by {
                if self.frame_holds(f, page_id) {
                    assert(table_has(self.pt(), page_id, f as BufferFrameIdT));
                    let j = choose|j: int|
                        0 <= j < self.pt().len() && self.pt()[j] == (
                        page_id,
                        f as BufferFrameIdT,
                        );
                }
            }
        }
        None
    }

    /// Index the buffer pool and return the page resident in the specified
    /// frame, or an error when the frame is empty or out of range.
    fn _get_page_by_frame(&self, frame_id: BufferFrameIdT) -> (r: Result<&Page, BufferError>)
        requires
            self.wf(),
        ensures
            match r {
                Ok(p) => self.frame(frame_id as int) == Some(*p),
                Err(e) => e == BufferError::PageNotFound && !self.occupied(frame_id as int),
            },
    {
        if (frame_id as usize) < self.buffer.pool.len() {
            match &self.buffer.pool[frame_id as usize] {
                Some(p) => Ok(p),
                None => Err(BufferError::PageNotFound),
            }
        } else {
            Err(BufferError::PageNotFound)
        }
    }

    /// Initialize a new page, pin it, and return its handle. The eviction
    /// policy picks the victim frame first — and is released before any disk
    /// work happens — then the victim's page is flushed out if dirty, a
    /// fresh block is allocated, and the new page is installed together with
    /// its page-table entry. If every frame is pinned, fail without mutating
    /// anything.
    fn _create_page(&mut self, variant: PageVariant) -> (r: Result<PageHandle, BufFrameErr>)
        requires
            old(self).wf(),
            old(self).next_block_id() < PageIdT::MAX,
        ensures
            final(self).wf(),
            match r {
                Ok(h) => create_ok(*old(self), *final(self), variant, h),
                Err(_) => !old(self).has_available_frame() && unchanged(
                    *old(self),
                    *final(self),
                ),
            },
    {
        let victim = self.evict_policy.evict();
        match victim {
            None => {
                proof {
                    Self::lemma_unchanged_buffer_wf(*old(self), *self);
                }
                Err(BufFrameErr::new())
            },
            Some(frame_id) => {
                proof {
                    old(self).evict_policy.lemma_eligible_in_range();
                }
                let ghost pre = *old(self);
                let ghost fi = frame_id as int;
                let fidx = frame_id as usize;

                // Flush the existing page out to disk if necessary.
                let mut victim_pid: Option<PageIdT> = None;
                match &self.buffer.pool[fidx] {
                    Some(page) => {
                        proof {
                            assert(pre.frame(fi) == Some(*page));
                            assert(page.wf());
                            assert((page.id() as int) < pre.next_block_id());
                        }
                        victim_pid = Some(page.get_id());
                        if page.is_dirty() {
                            let wrote = self.disk_manager.write_block(
                                page.get_id(),
                                page.get_data(),
                            );
                            proof {
                                assert(wrote is Ok);
                            }
                        }
                    },
                    None => {},
                }

                // Drop the victim's page-table entry.
                match victim_pid {
                    Some(pid) => {
                        table_remove(&mut self.buffer.page_table, pid);
                    },
                    None => {},
                }
                let ghost tmid = self.buffer.page_table@;

                // Allocate space on disk and initialize the new page.
                let page_id = self.disk_manager.allocate_block();
                let mut new_page = Page::new(page_id, variant);
                new_page.incr_pin_count();

                // Update the page table and install the pinned page.
                self.buffer.page_table.push((page_id, frame_id));
                self.buffer.pool[fidx] = Some(new_page);

                proof {
                    let post = *self;

                    // What the victim frame held before.
                    assert(match victim_pid {
                        Some(p) => pre.occupied(fi) && p == pre.id_of(fi),
                        None => !pre.occupied(fi),
                    });

                    // The fresh identifier names no resident page of the old
                    // state: every resident page's block was allocated earlier.
                    assert forall|f: int| !pre.frame_holds(f, page_id) by {
                        if pre.frame_holds(f, page_id) {
                            assert((pre.id_of(f) as int) < pre.next_block_id());
                        }
                    }
                    assert(!pre.resident(page_id));

                    assert(match pre.frame(fi) {
                        Some(p) => table_unique(tmid) && !table_has_pid(tmid, p.id()) && (forall|
                            q: PageIdT,
                            g: BufferFrameIdT,
                        |
                            q != p.id() ==> table_has(tmid, q, g) == table_has(pre.pt(), q, g)),
                        None => tmid == pre.pt(),
                    });
                    assert(post.pins_of(fi) == 1);
                    assert(post.available(fi) <==> post.frame_available(fi));
                    Self::lemma_page_installed(pre, post, fi, tmid, page_id);
                    assert(pre.available(fi));
                    assert(pre.has_available_frame());
                }

                Ok(PageHandle { page_id, frame_id })
            },
        }
    }

    /// Initialize a relation page, pin it, and return its handle.
    pub fn create_relation_page(&mut self) -> (r: Result<PageHandle, BufFrameErr>)
        requires
            old(self).wf(),
            old(self).next_block_id() < PageIdT::MAX,
        ensures
            final(self).wf(),
            match r {
                Ok(h) => create_ok(*old(self), *final(self), PageVariant::Relation, h),
                Err(_) => !old(self).has_available_frame() && unchanged(
                    *old(self),
                    *final(self),
                ),
            },
    {
        self._create_page(PageVariant::Relation)
    }

    /// Initialize a dictionary page, pin it, and return its handle.
    pub fn create_dictionary_page(&mut self) -> (r: Result<PageHandle, BufFrameErr>)
        requires
            old(self).wf(),
            old(self).next_block_id() < PageIdT::MAX,
        ensures
            final(self).wf(),
            match r {
                Ok(h) => create_ok(*old(self), *final(self), PageVariant::Dictionary, h),
                Err(_) => !old(self).has_available_frame() && unchanged(
                    *old(self),
                    *final(self),
                ),
            },
    {
        self._create_page(PageVariant::Dictionary)
    }

    /// Fetch the specified page, pin it, and return its handle. A resident
    /// page is served from its frame without touching disk; otherwise the
    /// block is read back from disk into a victim frame, byte for byte. The
    /// fetch fails when the page is neither resident nor on disk, or when no
    /// frame can be reclaimed; an error leaves no mutation behind.
    pub fn fetch_page(&mut self, page_id: PageIdT) -> (r: Result<PageHandle, BufferError>)
        requires
            old(self).wf(),
            old(self).resident(page_id) ==> old(self).page_pins(page_id) < u32::MAX,
        ensures
            final(self).wf(),
            match r {
                Ok(h) => (if old(self).resident(page_id) {
                    fetch_hit_ok(*old(self), *final(self), page_id, h)
                } else {
                    fetch_miss_ok(*old(self), *final(self), page_id, h)
                }),
                Err(e) => unchanged(*old(self), *final(self)) && (match e {
                    BufferError::PageNotFound => !old(self).resident(page_id) && old(
                        self,
                    ).block(page_id as int) is None,
                    BufferError::PoolExhausted => !old(self).resident(page_id) && old(
                        self,
                    ).block(page_id as int) is Some && !old(self).has_available_frame(),
                    _ => false,
                }),
            },
    {
        let ghost pre = *old(self);
        match self._page_table_lookup(page_id) {
            Some(frame_id) => {
                let ghost fi = frame_id as int;
                let fidx = frame_id as usize;
                match &mut self.buffer.pool[fidx] {
                    Some(p) => {
                        proof {
                            assert(pre.frame(fi) == Some(*p));
                            assert(p.pins() == pre.page_pins(page_id));
                        }
                        p.incr_pin_count();
                    },
                    None => {
                        proof {
                            assert(false);
                        }
                    },
                }
                self.evict_policy.pin(frame_id);
                proof {
                    let post = *self;
                    assert(post.pins_of(fi) == pre.pins_of(fi) + 1);
                    assert(!post.available(fi));
                    Self::lemma_page_updated(pre, post, fi);
                }
                Ok(PageHandle { page_id, frame_id })
            },
            None => {
                let read = self.disk_manager.read_block(page_id);
                match read {
                    Err(_) => Err(BufferError::PageNotFound),
                    Ok(data) => {
                        let victim = self.evict_policy.evict();
                        match victim {
                            None => {
                                proof {
                                    Self::lemma_unchanged_buffer_wf(pre, *self);
                                }
                                Err(BufferError::PoolExhausted)
                            },
                            Some(frame_id) => {
                                proof {
                                    old(self).evict_policy.lemma_eligible_in_range();
                                }
                                let ghost fi = frame_id as int;
                                let fidx = frame_id as usize;

                                // Flush the existing page out to disk if necessary.
                                let mut victim_pid: Option<PageIdT> = None;
                                match &self.buffer.pool[fidx] {
                                    Some(page) => {
                                        proof {
                                            assert(pre.frame(fi) == Some(*page));
                                            assert(page.wf());
                                            assert((page.id() as int) < pre.next_block_id());
                                        }
                                        victim_pid = Some(page.get_id());
                                        if page.is_dirty() {
                                            let wrote = self.disk_manager.write_block(
                                                page.get_id(),
                                                page.get_data(),
                                            );
                                            proof {
                                                assert(wrote is Ok);
                                            }
                                        }
                                    },
                                    None => {},
                                }

                                // Drop the victim's page-table entry.
                                match victim_pid {
                                    Some(pid) => {
                                        table_remove(&mut self.buffer.page_table, pid);
                                    },
                                    None => {},
                                }
                                let ghost tmid = self.buffer.page_table@;

                                // Install the page read back from disk, pinned.
                                let mut new_page = Page::from_data(page_id, data);
                                new_page.incr_pin_count();
                                self.buffer.page_table.push((page_id, frame_id));
                                self.buffer.pool[fidx] = Some(new_page);

                                proof {
                                    let post = *self;
                                    assert(match victim_pid {
                                        Some(p) => pre.occupied(fi) && p == pre.id_of(fi),
                                        None => !pre.occupied(fi),
                                    });
                                    assert(forall|g: int| !pre.frame_holds(g, page_id));
                                    assert(pre.block(page_id as int) is Some);
                                    pre.disk_manager.lemma_block_in_range();
                                    assert((page_id as int) < pre.next_block_id());
                                    assert(match pre.frame(fi) {
                                        Some(p) => table_unique(tmid) && !table_has_pid(
                                            tmid,
                                            p.id(),
                                        ) && (forall|q: PageIdT, g: BufferFrameIdT|
                                            q != p.id() ==> table_has(tmid, q, g) == table_has(
                                                pre.pt(),
                                                q,
                                                g,
                                            )),
                                        None => tmid == pre.pt(),
                                    });
                                    assert(post.pins_of(fi) == 1);
                                    assert(post.available(fi) <==> post.frame_available(fi));
                                    Self::lemma_page_installed(pre, post, fi, tmid, page_id);
                                    assert(pre.available(fi));
                                    assert(pre.has_available_frame());
                                }
                                Ok(PageHandle { page_id, frame_id })
                            },
                        }
                    },
                }
            },
        }
    }

    /// Delete the specified page: it must be resident and unpinned. Its
    /// frame is freed and becomes a victim candidate, its page-table entry
    /// is dropped, and its disk block is deallocated. Deleting a pinned
    /// page, or one that is not resident, fails and mutates nothing.
    pub fn delete_page(&mut self, page_id: PageIdT) -> (r: Result<(), BufferError>)
        requires
            old(self).wf(),
        ensures
            final(self).wf(),
            match r {
                Ok(_) => delete_ok(*old(self), *final(self), page_id),
                Err(e) => unchanged(*old(self), *final(self)) && (match e {
                    BufferError::PageNotFound => !old(self).resident(page_id),
                    BufferError::PagePinned => old(self).resident(page_id) && old(
                        self,
                    ).page_pins(page_id) > 0,
                    _ => false,
                }),
            },
    {
        let ghost pre = *old(self);
        match self._page_table_lookup(page_id) {
            None => Err(BufferError::PageNotFound),
            Some(frame_id) => {
                let ghost fi = frame_id as int;
                let fidx = frame_id as usize;
                let pinned = match &self.buffer.pool[fidx] {
                    Some(p) => p.get_pin_count() > 0,
                    None => false,
                };
                if pinned {
                    return Err(BufferError::PagePinned);
                }

                table_remove(&mut self.buffer.page_table, page_id);
                let ghost tmid = self.buffer.page_table@;
                self.buffer.pool[fidx] = None;
                let _ = self.disk_manager.deallocate_block(page_id);
                self.evict_policy.unpin(frame_id);

                proof {
                    let post = *self;
                    assert(pre.page_pins(page_id) == 0);

                    // Kept entries name other pages, resident in other frames.
                    assert forall|i: int|
                        0 <= i < post.pt().len() implies post.frame_holds(
                        (#[trigger] post.pt()[i]).1 as int,
                        post.pt()[i].0,
                    ) by {
                        let e = post.pt()[i];
                        assert(table_has(tmid, e.0, e.1));
                        assert(e.0 != page_id);
                        assert(table_has(pre.pt(), e.0, e.1));
                        let j = choose|j: int|
                            0 <= j < pre.pt().len() && pre.pt()[j] == (e.0, e.1);
                        assert(pre.frame_holds(e.1 as int, e.0));
                        if e.1 as int == fi {
                            assert(e.0 == pre.id_of(fi));
                            assert(false);
                        }
                        assert(post.frame(e.1 as int) == pre.frame(e.1 as int));
                    }

                    // Occupied frames other than the freed one keep entries.
                    assert forall|f: int|
                        #![trigger post.id_of(f)]
                        0 <= f < post.size() && post.occupied(f) implies table_has(
                        post.pt(),
                        post.id_of(f),
                        f as BufferFrameIdT,
                    ) by {
                        assert(f != fi);
                        assert(post.frame(f) == pre.frame(f));
                        let pid_f = pre.id_of(f);
                        assert(table_has(pre.pt(), pid_f, f as BufferFrameIdT));
                        if pid_f == page_id {
                            pre.lemma_frame_unique(f, fi, page_id);
                        }
                        assert(table_has(tmid, pid_f, f as BufferFrameIdT));
                    }

                    // Frames stay well formed; the freed frame is empty.
                    assert forall|f: int|
                        0 <= f < post.size() implies match #[trigger] post.frame(f) {
                        Some(p) => p.wf() && (p.id() as int) < post.next_block_id(),
                        None => true,
                    } by {
                        if f != fi {
                            assert(post.frame(f) == pre.frame(f));
                        }
                    }

                    // The freed frame is a candidate again; others unchanged.
                    assert forall|f: int|
                        0 <= f < post.size() implies ((#[trigger] post.available(f))
                            <==> post.frame_available(f)) by {
                        if f != fi {
                            assert(post.frame(f) == pre.frame(f));
                            assert(pre.available(f) <==> pre.frame_available(f));
                        }
                    }

                    assert(post.wf());

                    // The page is resident nowhere afterwards.
                    assert forall|f: int| !post.frame_holds(f, page_id) by {
                        if post.frame_holds(f, page_id) {
                            assert(f != fi);
                            assert(post.frame(f) == pre.frame(f));
                            assert(pre.frame_holds(f, page_id));
                            pre.lemma_frame_unique(f, fi, page_id);
                        }
                    }
                }
                Ok(())
            },
        }
    }

    /// Flush the specified page to disk: its content goes to its block and
    /// its dirty flag clears. The page stays resident and keeps its pins.
    pub fn flush_page(&mut self, page_id: PageIdT) -> (r: Result<(), BufferError>)
        requires
            old(self).wf(),
        ensures
            final(self).wf(),
            match r {
                Ok(_) => flush_ok(*old(self), *final(self), page_id),
                Err(e) => e == BufferError::PageNotFound && !old(self).resident(page_id)
                    && unchanged(*old(self), *final(self)),
            },
    {
        let ghost pre = *old(self);
        match self._page_table_lookup(page_id) {
            None => Err(BufferError::PageNotFound),
            Some(frame_id) => {
                let ghost fi = frame_id as int;
                let fidx = frame_id as usize;
                match &mut self.buffer.pool[fidx] {
                    Some(p) => {
                        proof {
                            assert(pre.frame(fi) == Some(*p));
                            assert(p.wf());
                            assert((p.id() as int) < pre.next_block_id());
                        }
                        let wrote = self.disk_manager.write_block(p.get_id(), p.get_data());
                        proof {
                            assert(wrote is Ok);
                        }
                        p.set_clean();
                    },
                    None => {
                        proof {
                            assert(false);
                        }
                    },
                }
                proof {
                    let post = *self;
                    assert(post.available(fi) == pre.available(fi));
                    assert(post.frame_available(fi) == pre.frame_available(fi));
                    Self::lemma_page_updated(pre, post, fi);
                }
                Ok(())
            },
        }
    }

    /// Flush every dirty resident page to disk and clear its dirty flag;
    /// no page is unpinned or evicted.
    #[verifier::rlimit(60)]
    pub fn flush_all_pages(&mut self) -> (r: Result<(), BufferError>)
        requires
            old(self).wf(),
        ensures
            final(self).wf(),
            r is Ok,
            flush_all_ok(*old(self), *final(self)),
    {
        let ghost pre = *old(self);
        let n = self.buffer.pool.len();
        let mut i: usize = 0;
        while i < n
            invariant
                self.wf(),
                pre.wf(),
                n == self.size(),
                n == pre.size(),
                i <= n,
                self.pt() == pre.pt(),
                self.evict_policy == pre.evict_policy,
                self.next_block_id() == pre.next_block_id(),
                forall|f: int| i <= f < n ==> (#[trigger] self.frame(f)) == pre.frame(f),
                forall|f: int| 0 <= f < i ==> (#[trigger] self.occupied(f)) == pre.occupied(f),
                forall|f: int| 0 <= f < i ==> (#[trigger] self.id_of(f)) == pre.id_of(f),
                forall|f: int| 0 <= f < i ==> (#[trigger] self.pins_of(f)) == pre.pins_of(f),
                forall|f: int| 0 <= f < i ==> (#[trigger] self.data_of(f)) == pre.data_of(f),
                forall|f: int|
                    0 <= f < i ==> (#[trigger] self.variant_of(f)) == pre.variant_of(f),
                forall|f: int| 0 <= f < i ==> !(#[trigger] self.dirty_of(f)),
                forall|f: int|
                    0 <= f < i && (#[trigger] pre.occupied(f)) && pre.dirty_of(f)
                        ==> self.block(pre.id_of(f) as int) == Some(pre.data_of(f)),
                forall|b: int|
                    (forall|f: int|
                        0 <= f < i ==> !((#[trigger] pre.occupied(f)) && pre.dirty_of(f)
                            && pre.id_of(f) == b)) ==> (#[trigger] self.block(b)) == pre.block(
                        b,
                    ),
            decreases n - i,
        {
            let ghost mid = *self;
            let dirty = match &self.buffer.pool[i] {
                Some(p) => p.is_dirty(),
                None => false,
            };
            if dirty {
                match &mut self.buffer.pool[i] {
                    Some(p) => {
                        proof {
                            assert(mid.frame(i as int) == Some(*p));
                            assert(p.wf());
                            assert((p.id() as int) < mid.next_block_id());
                        }
                        let wrote = self.disk_manager.write_block(p.get_id(), p.get_data());
                        proof {
                            assert(wrote is Ok);
                        }
                        p.set_clean();
                    },
                    None => {
                        proof {
                            assert(false);
                        }
                    },
                }
                proof {
                    let post = *self;
                    assert(post.available(i as int) == mid.available(i as int));
                    assert(post.frame_available(i as int) == mid.frame_available(i as int));
                    Self::lemma_page_updated(mid, post, i as int);
                    assert(post.block(pre.id_of(i as int) as int) == Some(
                        pre.data_of(i as int),
                    ));
                }
            }
            proof {
                let post = *self;
                assert forall|f: int|
                    0 <= f < n && f != i implies (#[trigger] post.frame(f)) == mid.frame(
                    f,
                ) by {}
                assert forall|f: int|
                    #![trigger post.occupied(f)]
                    #![trigger post.id_of(f)]
                    #![trigger post.pins_of(f)]
                    #![trigger post.data_of(f)]
                    #![trigger post.variant_of(f)]
                    #![trigger post.dirty_of(f)]
                    0 <= f < i implies post.occupied(f) == pre.occupied(f) && post.id_of(f)
                        == pre.id_of(f) && post.pins_of(f) == pre.pins_of(f) && post.data_of(f)
                        == pre.data_of(f) && post.variant_of(f) == pre.variant_of(f)
                        && !post.dirty_of(f) by {
                    assert(post.frame(f) == mid.frame(f));
                    assert(mid.occupied(f) == pre.occupied(f));
                    assert(mid.id_of(f) == pre.id_of(f));
                    assert(mid.pins_of(f) == pre.pins_of(f));
                    assert(mid.data_of(f) == pre.data_of(f));
                    assert(mid.variant_of(f) == pre.variant_of(f));
                    assert(!mid.dirty_of(f));
                }
                assert(post.occupied(i as int) == pre.occupied(i as int));
                assert(post.id_of(i as int) == pre.id_of(i as int));
                assert(post.pins_of(i as int) == pre.pins_of(i as int));
                assert(post.data_of(i as int) == pre.data_of(i as int));
                assert(post.variant_of(i as int) == pre.variant_of(i as int));
                assert(!post.dirty_of(i as int));
                assert(forall|f: int|
                    0 <= f < i + 1 ==> (#[trigger] post.occupied(f)) == pre.occupied(f));
                assert(forall|f: int|
                    0 <= f < i + 1 ==> (#[trigger] post.id_of(f)) == pre.id_of(f));
                assert(forall|f: int|
                    0 <= f < i + 1 ==> (#[trigger] post.pins_of(f)) == pre.pins_of(f));
                assert(forall|f: int|
                    0 <= f < i + 1 ==> (#[trigger] post.data_of(f)) == pre.data_of(f));
                assert(forall|f: int|
                    0 <= f < i + 1 ==> (#[trigger] post.variant_of(f)) == pre.variant_of(f));
                assert(forall|f: int| 0 <= f < i + 1 ==> !(#[trigger] post.dirty_of(f)));
                assert forall|b: int|
                    (forall|f: int|
                        0 <= f < i + 1 ==> !((#[trigger] pre.occupied(f)) && pre.dirty_of(f)
                            && pre.id_of(f) == b)) implies (#[trigger] post.block(b))
                    == pre.block(b) by {
                    assert(!(pre.occupied(i as int) && pre.dirty_of(i as int) && pre.id_of(
                        i as int,
                    ) == b));
                    if dirty {
                        assert(pre.occupied(i as int) && pre.dirty_of(i as int));
                        assert(b != mid.id_of(i as int));
                        assert(post.block(b) == mid.block(b));
                    }
                    assert(mid.block(b) == pre.block(b));
                }
            }
            i += 1;
        }
        proof {
            let post = *self;
            assert(forall|g: int| (#[trigger] post.available(g)) == pre.available(g));
            assert(post.policy_variant() == pre.policy_variant());
            assert(flush_all_ok(pre, post));
        }
        Ok(())
    }

    /// Pin the specified page to the buffer: its pin count rises by one and
    /// its frame leaves eviction candidacy. Pinning a page that is not
    /// resident is an error.
    pub fn pin_page(&mut self, page_id: PageIdT) -> (r: Result<(), BufferError>)
        requires
            old(self).wf(),
            old(self).resident(page_id) ==> old(self).page_pins(page_id) < u32::MAX,
        ensures
            final(self).wf(),
            match r {
                Ok(_) => pin_ok(*old(self), *final(self), page_id),
                Err(e) => e == BufferError::PageNotFound && !old(self).resident(page_id)
                    && unchanged(*old(self), *final(self)),
            },
    {
        let ghost pre = *old(self);
        match self._page_table_lookup(page_id) {
            None => Err(BufferError::PageNotFound),
            Some(frame_id) => {
                let ghost fi = frame_id as int;
                let fidx = frame_id as usize;
                match &mut self.buffer.pool[fidx] {
                    Some(p) => {
                        proof {
                            assert(pre.frame(fi) == Some(*p));
                            assert(p.pins() == pre.page_pins(page_id));
                        }
                        p.incr_pin_count();
                    },
                    None => {
                        proof {
                            assert(false);
                        }
                    },
                }
                self.evict_policy.pin(frame_id);
                proof {
                    let post = *self;
                    assert(post.pins_of(fi) == pre.pins_of(fi) + 1);
                    assert(!post.available(fi));
                    Self::lemma_page_updated(pre, post, fi);
                }
                Ok(())
            },
        }
    }

    /// Unpin the specified page: its pin count drops by one, and giving up
    /// the last pin makes its frame a victim candidate again. Unpinning a
    /// page that is not resident, or whose pin count is already zero, is an
    /// error.
    pub fn unpin_page(&mut self, page_id: PageIdT) -> (r: Result<(), BufferError>)
        requires
            old(self).wf(),
        ensures
            final(self).wf(),
            match r {
                Ok(_) => unpin_ok(*old(self), *final(self), page_id),
                Err(e) => unchanged(*old(self), *final(self)) && (match e {
                    BufferError::PageNotFound => !old(self).resident(page_id),
                    BufferError::PageNotPinned => old(self).resident(page_id) && old(
                        self,
                    ).page_pins(page_id) == 0,
                    _ => false,
                }),
            },
    {
        let ghost pre = *old(self);
        match self._page_table_lookup(page_id) {
            None => Err(BufferError::PageNotFound),
            Some(frame_id) => {
                let ghost fi = frame_id as int;
                let fidx = frame_id as usize;
                let pins = match &self.buffer.pool[fidx] {
                    Some(p) => p.get_pin_count(),
                    None => 0,
                };
                if pins == 0 {
                    return Err(BufferError::PageNotPinned);
                }
                match &mut self.buffer.pool[fidx] {
                    Some(p) => {
                        proof {
                            assert(pre.frame(fi) == Some(*p));
                        }
                        p.decr_pin_count();
                    },
                    None => {
                        proof {
                            assert(false);
                        }
                    },
                }
                if pins == 1 {
                    self.evict_policy.unpin(frame_id);
                }
                proof {
                    let post = *self;
                    assert(post.pins_of(fi) == pre.pins_of(fi) - 1);
                    if pins == 1 {
                        assert(post.available(fi));
                    } else {
                        assert(post.available(fi) == pre.available(fi));
                        assert(!pre.frame_available(fi));
                        assert(!post.frame_available(fi));
                    }
                    Self::lemma_page_updated(pre, post, fi);
                }
                Ok(())
            },
        }
    }

    /// Pin count of the specified resident page; lets a caller check, before
    /// pinning or deleting, what the contract of those operations turns on.
    pub fn page_pin_count(&self, page_id: PageIdT) -> (r: Result<u32, BufferError>)
        requires
            self.wf(),
        ensures
            match r {
                Ok(c) => self.resident(page_id) && c == self.page_pins(page_id),
                Err(e) => e == BufferError::PageNotFound && !self.resident(page_id),
            },
    {
        match self._page_table_lookup(page_id) {
            None => Err(BufferError::PageNotFound),
            Some(frame_id) => {
                match &self.buffer.pool[frame_id as usize] {
                    Some(p) => {
                        proof {
                            assert(self.frame(frame_id as int) == Some(*p));
                        }
                        Ok(p.get_pin_count())
                    },
                    None => {
                        proof {
                            assert(false);
                        }
                        Err(BufferError::PageNotFound)
                    },
                }
            },
        }
    }

    /// How many disk blocks have been allocated; page creation needs this
    /// counter below its integer width.
    pub fn block_count(&self) -> (r: PageIdT)
        requires
            self.wf(),
        ensures
            r as int == self.next_block_id(),
    {
        self.disk_manager.block_count()
    }

    /// Copy the content of the specified resident page out of its frame.
    pub fn read_page(&self, page_id: PageIdT) -> (r: Result<Vec<u8>, BufferError>)
        requires
            self.wf(),
        ensures
            match r {
                Ok(d) => self.resident(page_id) && d@ == self.page_data(page_id) && d@.len()
                    == crate::common::BLOCK_SIZE,
                Err(e) => e == BufferError::PageNotFound && !self.resident(page_id),
            },
    {
        match self._page_table_lookup(page_id) {
            None => Err(BufferError::PageNotFound),
            Some(frame_id) => {
                let fidx = frame_id as usize;
                match &self.buffer.pool[fidx] {
                    Some(p) => {
                        proof {
                            assert(self.frame(frame_id as int) == Some(*p));
                        }
                        Ok(p.copy_data())
                    },
                    None => {
                        proof {
                            assert(false);
                        }
                        Err(BufferError::PageNotFound)
                    },
                }
            },
        }
    }

    /// Replace the content of the specified resident page, marking it dirty.
    pub fn write_page(&mut self, page_id: PageIdT, data: &Vec<u8>) -> (r: Result<
        (),
        BufferError,
    >)
        requires
            old(self).wf(),
            data@.len() == crate::common::BLOCK_SIZE,
        ensures
            final(self).wf(),
            match r {
                Ok(_) => write_ok(*old(self), *final(self), page_id, data@),
                Err(e) => e == BufferError::PageNotFound && !old(self).resident(page_id)
                    && unchanged(*old(self), *final(self)),
            },
    {
        let ghost pre = *old(self);
        match self._page_table_lookup(page_id) {
            None => Err(BufferError::PageNotFound),
            Some(frame_id) => {
                let ghost fi = frame_id as int;
                let fidx = frame_id as usize;
                match &mut self.buffer.pool[fidx] {
                    Some(p) => {
                        proof {
                            assert(pre.frame(fi) == Some(*p));
                        }
                        p.write_data(data);
                    },
                    None => {
                        proof {
                            assert(false);
                        }
                    },
                }
                proof {
                    let post = *self;
                    assert(post.available(fi) == pre.available(fi));
                    assert(post.frame_available(fi) == pre.frame_available(fi));
                    Self::lemma_page_updated(pre, post, fi);
                }
                Ok(())
            },
        }
    }
}

} // verus!
