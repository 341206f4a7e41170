//! System-wide constants and identifier types.

use vstd::prelude::*;

verus! {

/// Size in bytes of one on-disk block, and of one in-memory page.
pub const BLOCK_SIZE: u32 = 4096;

/// Identifier of an on-disk block.
pub type BlockIdT = u32;

/// Identifier of a page; equal to the identifier of the block backing it.
pub type PageIdT = u32;

/// Index of a frame in the buffer pool.
pub type BufferFrameIdT = u32;

/// Copy a byte vector element by element.
pub fn clone_bytes(v: &Vec<u8>) -> (r: Vec<u8>)
    ensures
        r@ == v@,
{
    let mut r: Vec<u8> = Vec::new();
    let mut i: usize = 0;
    while i < v.len()
        invariant
            i <= v@.len(),
            r@ == v@.subrange(0, i as int),
        decreases v@.len() - i,
    {
        r.push(v[i]);
        proof {
            assert(r@ =~= v@.subrange(0, i + 1));
        }
        i += 1;
    }
    proof {
        assert(r@ =~= v@);
    }
    r
}

} // verus!
