//! The disk manager is responsible for managing blocks stored on disk: it
//! hands out monotonically increasing block identifiers and stores the
//! content of each written block.
//!
//! The store is modelled in memory as one slot per allocated block; a
//! file-backed version with the same block-level behaviour belongs to the
//! surrounding application, which performs the actual I/O.

use crate::common::BLOCK_SIZE;
use crate::common::BlockIdT;
use crate::common::clone_bytes;
use vstd::prelude::*;

verus! {

/// Content of one allocated block: `Some` once written, `None` while the
/// block has never been written or after it has been deallocated.
pub open spec fn block_slot_wf(b: Option<Vec<u8>>) -> bool {
    match b {
        Some(d) => d@.len() == BLOCK_SIZE,
        None => true,
    }
}

/// Owner of the backing store: allocates block identifiers and reads and
/// writes fixed-size blocks.
pub struct DiskManager {
    blocks: Vec<Option<Vec<u8>>>,
}

impl DiskManager {
    /// Number of block identifiers handed out so far; the next allocation
    /// returns exactly this value, so allocation is strictly monotonic and
    /// an identifier is never reused.
    pub closed spec fn next_block_id(&self) -> int {
        self.blocks@.len() as int
    }

    /// Content of a block: `Some` exactly when the block has been allocated,
    /// written, and not deallocated since.
    pub closed spec fn block(&self, id: int) -> Option<Seq<u8>> {
        if 0 <= id < self.blocks@.len() {
            match self.blocks@[id] {
                Some(d) => Some(d@),
                None => None,
            }
        } else {
            None
        }
    }

    /// Every written block holds exactly `BLOCK_SIZE` bytes, and the block
    /// counter fits its integer width.
    pub closed spec fn wf(&self) -> bool {
        &&& self.blocks@.len() <= BlockIdT::MAX
        &&& forall|i: int|
            0 <= i < self.blocks@.len() ==> block_slot_wf(#[trigger] self.blocks@[i])
    }

    /// How many block identifiers have been handed out so far.
    pub fn block_count(&self) -> (r: BlockIdT)
        requires
            self.wf(),
        ensures
            r as int == self.next_block_id(),
    {
        self.blocks.len() as BlockIdT
    }

    /// Block allocation is strictly monotonically increasing across the disk
    /// manager's lifetime: `allocate_block` returns the counter and bumps it,
    /// no operation ever lowers the counter, and so an identifier handed out
    /// later is strictly greater — no identifier is ever handed out twice.
    pub proof fn lemma_allocation_monotonic(
        pre: DiskManager,
        mid: DiskManager,
        post: DiskManager,
        id1: BlockIdT,
        id2: BlockIdT,
    )
        requires
            id1 as int == pre.next_block_id(),
            mid.next_block_id() == pre.next_block_id() + 1,
            mid.next_block_id() <= post.next_block_id(),
            id2 as int == post.next_block_id(),
        ensures
            id2 > id1,
    {
    }

    /// A block with content is one whose identifier was allocated.
    pub proof fn lemma_block_in_range(&self)
        ensures
            forall|id: int|
                (#[trigger] self.block(id)) is Some ==> 0 <= id < self.next_block_id(),
    {
    }

    /// Create a new disk manager with an empty store and the block counter
    /// at zero.
    pub fn new() -> (d: DiskManager)
        ensures
            d.wf(),
            d.next_block_id() == 0,
            forall|i: int| d.block(i) is None,
    {
        DiskManager { blocks: Vec::new() }
    }

    /// Allocate a block on disk and return the id of the allocated block.
    /// The counter only ever increases and no identifier is handed out
    /// twice; counter exhaustion is ruled out by the caller.
    pub fn allocate_block(&mut self) -> (id: BlockIdT)
        requires
            old(self).wf(),
            old(self).next_block_id() < BlockIdT::MAX,
        ensures
            final(self).wf(),
            id == old(self).next_block_id(),
            final(self).next_block_id() == old(self).next_block_id() + 1,
            forall|i: int| final(self).block(i) == old(self).block(i),
    {
        let id = self.blocks.len();
        self.blocks.push(None);
        proof {
            assert(forall|i: int| final(self).block(i) == old(self).block(i));
        }
        id as BlockIdT
    }

    /// Deallocate the specified block: its content is discarded and a later
    /// read of it fails, but its identifier is never reused.
    pub fn deallocate_block(&mut self, block_id: BlockIdT) -> (r: Result<(), ()>)
        requires
            old(self).wf(),
        ensures
            final(self).wf(),
            r is Ok,
            final(self).next_block_id() == old(self).next_block_id(),
            final(self).block(block_id as int) is None,
            forall|i: int| i != block_id ==> final(self).block(i) == old(self).block(i),
    {
        if (block_id as usize) < self.blocks.len() {
            self.blocks[block_id as usize] = None;
        }
        Ok(())
    }

    /// Write the specified byte array out to the block store. Fails exactly
    /// when the block was never allocated.
    pub fn write_block(&mut self, block_id: BlockIdT, block_data: &Vec<u8>) -> (r: Result<
        (),
        (),
    >)
        requires
            old(self).wf(),
            block_data@.len() == BLOCK_SIZE,
        ensures
            final(self).wf(),
            final(self).next_block_id() == old(self).next_block_id(),
            match r {
                Ok(_) => block_id < old(self).next_block_id() && final(self).block(
                    block_id as int,
                ) == Some(block_data@) && forall|i: int|
                    i != block_id ==> final(self).block(i) == old(self).block(i),
                Err(_) => block_id >= old(self).next_block_id() && *final(self) == *old(self),
            },
    {
        if (block_id as usize) < self.blocks.len() {
            self.blocks[block_id as usize] = Some(clone_bytes(block_data));
            Ok(())
        } else {
            Err(())
        }
    }

    /// Read a single block's data. Fails exactly when the block holds no
    /// content: never allocated, never written, or deallocated.
    pub fn read_block(&self, block_id: BlockIdT) -> (r: Result<Vec<u8>, ()>)
        requires
            self.wf(),
        ensures
            match r {
                Ok(d) => self.block(block_id as int) == Some(d@) && d@.len() == BLOCK_SIZE,
                Err(_) => self.block(block_id as int) is None,
            },
    {
        if (block_id as usize) < self.blocks.len() {
            match &self.blocks[block_id as usize] {
                Some(d) => Ok(clone_bytes(d)),
                None => Err(()),
            }
        } else {
            Err(())
        }
    }
}

} // verus!
