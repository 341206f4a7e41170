//! In-memory pages: a fixed-size byte buffer tagged with a variant, a unique
//! page identifier, a pin count and a dirty flag.

use crate::common::BLOCK_SIZE;
use crate::common::PageIdT;
use crate::common::clone_bytes;
use vstd::prelude::*;

verus! {

/// The role a page plays in the storage engine.
#[derive(Clone, Copy, PartialEq, Eq, Structural, Debug)]
pub enum PageVariant {
    Relation,
    Dictionary,
}

/// Header byte recording a page's variant inside its data buffer.
pub open spec fn variant_tag(v: PageVariant) -> u8 {
    match v {
        PageVariant::Relation => 1u8,
        PageVariant::Dictionary => 2u8,
    }
}

/// Variant read back from a page's header byte; bytes that name no known
/// variant fall back to `Relation`.
pub open spec fn variant_of_data(d: Seq<u8>) -> PageVariant {
    if d[0] == 2u8 {
        PageVariant::Dictionary
    } else {
        PageVariant::Relation
    }
}

/// The data of a freshly initialized page: all zero except the header byte.
pub open spec fn fresh_page_data(v: PageVariant) -> Seq<u8> {
    Seq::new(BLOCK_SIZE as nat, |i: int| if i == 0 { variant_tag(v) } else { 0u8 })
}

/// One in-memory copy of a disk block. A page's identifier is assigned at
/// creation from the disk manager's block allocator and never changes.
pub struct Page {
    id: PageIdT,
    variant: PageVariant,
    pin_count: u32,
    dirty: bool,
    data: Vec<u8>,
}

impl Page {
    /// The page's immutable identifier.
    pub closed spec fn id(&self) -> PageIdT {
        self.id
    }

    /// The page's variant tag.
    pub closed spec fn variant(&self) -> PageVariant {
        self.variant
    }

    /// How many callers currently hold the page.
    pub closed spec fn pins(&self) -> u32 {
        self.pin_count
    }

    /// Whether the in-memory content differs from what is on disk.
    pub closed spec fn dirty(&self) -> bool {
        self.dirty
    }

    /// The page's content.
    pub closed spec fn data(&self) -> Seq<u8> {
        self.data@
    }

    /// A page's buffer always holds exactly `BLOCK_SIZE` bytes.
    pub open spec fn wf(&self) -> bool {
        self.data().len() == BLOCK_SIZE
    }

    /// Initialize a page of the given variant: zeroed content apart from the
    /// header byte, no pins, clean.
    pub fn new(id: PageIdT, variant: PageVariant) -> (p: Page)
        ensures
            p.wf(),
            p.id() == id,
            p.variant() == variant,
            p.pins() == 0,
            !p.dirty(),
            p.data() == fresh_page_data(variant),
    {
        let mut data: Vec<u8> = vec![0u8; BLOCK_SIZE as usize];
        let tag: u8 = match variant {
            PageVariant::Relation => 1,
            PageVariant::Dictionary => 2,
        };
        data[0] = tag;
        proof {
            assert(data@ =~= fresh_page_data(variant));
        }
        Page { id, variant, pin_count: 0, dirty: false, data }
    }

    /// Rebuild a page from the block content read back from disk; the
    /// variant is recovered from the header byte.
    pub fn from_data(id: PageIdT, data: Vec<u8>) -> (p: Page)
        requires
            data@.len() == BLOCK_SIZE,
        ensures
            p.wf(),
            p.id() == id,
            p.variant() == variant_of_data(data@),
            p.pins() == 0,
            !p.dirty(),
            p.data() == data@,
    {
        let variant = if data[0] == 2 {
            PageVariant::Dictionary
        } else {
            PageVariant::Relation
        };
        Page { id, variant, pin_count: 0, dirty: false, data }
    }

    pub fn get_id(&self) -> (r: PageIdT)
        ensures
            r == self.id(),
    {
        self.id
    }

    pub fn get_variant(&self) -> (r: PageVariant)
        ensures
            r == self.variant(),
    {
        self.variant
    }

    pub fn get_pin_count(&self) -> (r: u32)
        ensures
            r == self.pins(),
    {
        self.pin_count
    }

    pub fn is_dirty(&self) -> (r: bool)
        ensures
            r == self.dirty(),
    {
        self.dirty
    }

    /// Borrow the page's content.
    pub fn get_data(&self) -> (r: &Vec<u8>)
        ensures
            r@ == self.data(),
    {
        &self.data
    }

    /// Copy the page's content out.
    pub fn copy_data(&self) -> (r: Vec<u8>)
        ensures
            r@ == self.data(),
    {
        clone_bytes(&self.data)
    }

    /// Record one more holder of the page.
    pub fn incr_pin_count(&mut self)
        requires
            old(self).pins() < u32::MAX,
        ensures
            final(self).pins() == old(self).pins() + 1,
            final(self).id() == old(self).id(),
            final(self).variant() == old(self).variant(),
            final(self).dirty() == old(self).dirty(),
            final(self).data() == old(self).data(),
            final(self).wf() == old(self).wf(),
    {
        self.pin_count = self.pin_count + 1;
    }

    /// Record that one holder of the page let go.
    pub fn decr_pin_count(&mut self)
        requires
            old(self).pins() > 0,
        ensures
            final(self).pins() == old(self).pins() - 1,
            final(self).id() == old(self).id(),
            final(self).variant() == old(self).variant(),
            final(self).dirty() == old(self).dirty(),
            final(self).data() == old(self).data(),
            final(self).wf() == old(self).wf(),
    {
        self.pin_count = self.pin_count - 1;
    }

    /// Replace the page's content and mark it dirty.
    pub fn write_data(&mut self, data: &Vec<u8>)
        requires
            data@.len() == BLOCK_SIZE,
        ensures
            final(self).data() == data@,
            final(self).dirty(),
            final(self).id() == old(self).id(),
            final(self).variant() == old(self).variant(),
            final(self).pins() == old(self).pins(),
            final(self).wf(),
    {
        self.data = clone_bytes(data);
        self.dirty = true;
    }

    /// Mark the page as matching its on-disk content again.
    pub fn set_clean(&mut self)
        ensures
            !final(self).dirty(),
            final(self).id() == old(self).id(),
            final(self).variant() == old(self).variant(),
            final(self).pins() == old(self).pins(),
            final(self).data() == old(self).data(),
            final(self).wf() == old(self).wf(),
    {
        self.dirty = false;
    }
}

} // verus!
