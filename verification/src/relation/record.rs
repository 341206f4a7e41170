//! A database record with variable-length attributes.
//!
//! The initial section of a record contains a null bitmap which represents
//! which attributes are null and should be ignored. The next section
//! contains fixed-length values; variable-length values are encoded as an
//! offset/length pair pointing past the fixed-length section.

use crate::common::BlockIdT;
use vstd::prelude::*;

verus! {

/// A database record identifier comprised of the block ID and slot index
/// that the record is located at.
pub struct RecordId {
    pub block_id: BlockIdT,
    pub slot_index: u32,
}

/// A database record: its address plus its encoded bytes.
pub struct Record {
    pub id: RecordId,
    pub data: Vec<u8>,
}

impl Record {
    /// Build a record from its address and encoded bytes.
    pub fn new(block_id: BlockIdT, slot_index: u32, tmp: Vec<u8>) -> (r: Record)
        ensures
            r.id.block_id == block_id,
            r.id.slot_index == slot_index,
            r.data@ == tmp@,
    {
        Record { id: RecordId { block_id, slot_index }, data: tmp }
    }

    /// Number of encoded bytes in the record.
    pub fn len(&self) -> (r: u32)
        requires
            self.data@.len() <= u32::MAX,
        ensures
            r == self.data@.len(),
    {
        self.data.len() as u32
    }
}

} // verus!
