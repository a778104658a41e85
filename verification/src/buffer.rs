//! A buffer of bytes on the kernel heap.
//!
//! The buffer is a block of the byte allocator and its length. Its bytes
//! lie in the memory of the page allocator, under the address of the block.
//! A buffer is given back to the heap with `release`.

use crate::cpu::memcpy;
use crate::kmem::{kfree, kmalloc, Kmem};
use crate::page::PageAllocator;
use vstd::prelude::*;

verus! {

/// Length of a buffer that is made without one.
pub const DEFAULT_BUFFER_SIZE: usize = 1024;

pub struct Buffer {
    buffer: u64,
    len: usize,
}

impl Buffer {
    /// Address of the bytes; 0 if the heap had no room for them.
    pub closed spec fn addr(&self) -> u64 {
        self.buffer
    }

    /// Number of bytes.
    pub closed spec fn spec_len(&self) -> usize {
        self.len
    }

    /// A buffer of `sz` bytes in a block of `heap`.
    pub fn new(heap: &mut Kmem, sz: usize) -> (b: Buffer)
        requires
            old(heap).wf(),
        ensures
            final(heap).wf(),
            b.spec_len() == sz,
            final(heap).head() == old(heap).head(),
            final(heap).num_pages() == old(heap).num_pages(),
            b.addr() == 0 <==> forall|i: int|
                !crate::kmem::block_fits(old(heap).blocks(), crate::kmem::block_need(sz as int), i),
            b.addr() == 0 ==> final(heap).blocks() == old(heap).blocks(),
            b.addr() != 0 ==> {
                let need = crate::kmem::block_need(sz as int);
                let i = crate::kmem::fit_index(old(heap).blocks(), need);
                &&& b.addr() == old(heap).data_addr(i)
                &&& final(heap).blocks() == crate::kmem::carve(old(heap).blocks(), need, i)
            },
    {
        Buffer { buffer: kmalloc(heap, sz as u64), len: sz }
    }

    /// Address of the bytes, for writing.
    pub fn get_mut(&mut self) -> (r: u64)
        ensures
            r == old(self).addr(),
            *final(self) == *old(self),
    {
        self.buffer
    }

    /// Address of the bytes.
    pub fn get(&self) -> (r: u64)
        ensures
            r == self.addr(),
    {
        self.buffer
    }

    pub fn len(&self) -> (r: usize)
        ensures
            r == self.spec_len(),
    {
        self.len
    }

    /// The byte at position `idx`; `None` where the buffer has no bytes or
    /// the position lies outside of it or of the memory.
    pub fn index(&self, alloc: &PageAllocator, idx: usize) -> (r: Option<u8>)
        requires
            alloc.wf(),
        ensures
            r == if self.addr() != 0 && idx < self.spec_len() && self.addr() + idx <= u64::MAX {
                alloc.byte_at(self.addr() + idx)
            } else {
                None
            },
    {
        if self.buffer == 0 || idx >= self.len || idx as u64 > u64::MAX - self.buffer {
            return None;
        }
        alloc.read(self.buffer + idx as u64)
    }

    /// Stores `value` at position `idx` and returns true; returns false and
    /// changes nothing where the buffer has no bytes or the position lies
    /// outside of it or of the memory.
    pub fn index_mut(&mut self, alloc: &mut PageAllocator, idx: usize, value: u8) -> (ok: bool)
        requires
            old(alloc).wf(),
        ensures
            *final(self) == *old(self),
            final(alloc).wf(),
            final(alloc).start() == old(alloc).start(),
            final(alloc).pages() == old(alloc).pages(),
            ok == (old(self).addr() != 0 && idx < old(self).spec_len() && old(alloc).in_memory(
                old(self).addr() + idx,
            )),
            ok ==> final(alloc).memory() == old(alloc).memory().update(
                old(self).addr() + idx - old(alloc).start(),
                value,
            ),
            !ok ==> final(alloc).memory() == old(alloc).memory(),
    {
        if self.buffer == 0 || idx >= self.len || idx as u64 > u64::MAX - self.buffer {
            return false;
        }
        alloc.write(self.buffer + idx as u64, value)
    }

    /// A buffer of the same length in a block of its own, with the same
    /// bytes. Where the heap has no room, or the bytes do not lie in the
    /// memory, the new buffer has no bytes or other bytes.
    pub fn duplicate(&self, heap: &mut Kmem, alloc: &mut PageAllocator) -> (r: (Buffer, bool))
        requires
            old(heap).wf(),
            old(alloc).wf(),
        ensures
            final(heap).wf(),
            final(alloc).wf(),
            final(alloc).start() == old(alloc).start(),
            final(alloc).pages() == old(alloc).pages(),
            r.0.spec_len() == self.spec_len(),
            r.1 ==> r.0.addr() != 0 && final(alloc).memory() == crate::page::copied(
                old(alloc).memory(),
                r.0.addr() - old(alloc).start(),
                self.addr() - old(alloc).start(),
                self.spec_len() as int,
            ),
            !r.1 ==> final(alloc).memory() == old(alloc).memory(),
    {
        let new = Buffer { buffer: kmalloc(heap, self.len as u64), len: self.len };
        if new.buffer == 0 {
            return (new, false);
        }
        let ok = memcpy(alloc, new.buffer, self.buffer, self.len as u64);
        (new, ok)
    }

    /// Gives the block of the buffer back to `heap`.
    pub fn release(self, heap: &mut Kmem)
        requires
            old(heap).wf(),
        ensures
            final(heap).wf(),
            final(heap).head() == old(heap).head(),
            final(heap).num_pages() == old(heap).num_pages(),
            self.addr() == 0 ==> final(heap).blocks() == old(heap).blocks(),
            self.addr() != 0 ==> final(heap).blocks() == crate::kmem::coalesced(
                old(heap).freed(self.addr() as int),
            ),
    {
        if self.buffer != 0 {
            kfree(heap, self.buffer);
        }
    }
}

/// A buffer of a size that is given in 32 bits, as the file system asks for
/// it.
pub struct BlockBuffer {
    buffer: u64,
}

impl BlockBuffer {
    /// Address of the bytes; 0 if the heap had no room for them.
    pub closed spec fn addr(&self) -> u64 {
        self.buffer
    }

    /// A buffer of `sz` bytes in a block of `heap`.
    pub fn new(heap: &mut Kmem, sz: u32) -> (b: BlockBuffer)
        requires
            old(heap).wf(),
        ensures
            final(heap).wf(),
            final(heap).head() == old(heap).head(),
            final(heap).num_pages() == old(heap).num_pages(),
            b.addr() == 0 <==> forall|i: int|
                !crate::kmem::block_fits(old(heap).blocks(), crate::kmem::block_need(sz as int), i),
            b.addr() == 0 ==> final(heap).blocks() == old(heap).blocks(),
            b.addr() != 0 ==> {
                let need = crate::kmem::block_need(sz as int);
                let i = crate::kmem::fit_index(old(heap).blocks(), need);
                &&& b.addr() == old(heap).data_addr(i)
                &&& final(heap).blocks() == crate::kmem::carve(old(heap).blocks(), need, i)
            },
    {
        BlockBuffer { buffer: kmalloc(heap, sz as u64) }
    }

    pub fn get_mut(&mut self) -> (r: u64)
        ensures
            r == old(self).addr(),
            *final(self) == *old(self),
    {
        self.buffer
    }

    pub fn get(&self) -> (r: u64)
        ensures
            r == self.addr(),
    {
        self.buffer
    }

    /// Gives the block of the buffer back to `heap`.
    pub fn release(self, heap: &mut Kmem)
        requires
            old(heap).wf(),
        ensures
            final(heap).wf(),
            final(heap).head() == old(heap).head(),
            final(heap).num_pages() == old(heap).num_pages(),
            self.addr() == 0 ==> final(heap).blocks() == old(heap).blocks(),
            self.addr() != 0 ==> final(heap).blocks() == crate::kmem::coalesced(
                old(heap).freed(self.addr() as int),
            ),
    {
        if self.buffer != 0 {
            kfree(heap, self.buffer);
        }
    }
}

} // verus!
