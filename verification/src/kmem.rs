//! Byte allocator for kernel data, on top of the page allocator.
//!
//! The pool is one run of pages. It is cut into blocks that follow each other
//! without a gap: each block begins with a header of eight bytes, one word
//! that holds the block's size (header included) and, in its highest bit,
//! whether the block is taken. The blocks are kept here in address order; the
//! address of a block is the pool's address plus the sizes of the blocks
//! before it.

use crate::page::{align_val, spec_align_val, PageAllocator};
use vstd::prelude::*;

verus! {

/// Size of a block header in bytes.
pub const HEADER_SIZE: u64 = 8;

/// The bit of a header word that marks the block as taken.
pub const TAKEN_BIT: u64 = 0x8000_0000_0000_0000;

/// Number of pages that `init` reserves for the pool.
pub const KMEM_PAGES: usize = 64;

/// Flags of a block header.
#[derive(Clone, Copy, Debug, PartialEq, Eq, Structural)]
pub enum AllocListFlags {
    Taken,
}

impl AllocListFlags {
    pub open spec fn spec_val(self) -> u64 {
        0x8000_0000_0000_0000
    }

    /// The flag as a bit of the header word.
    pub fn val(self) -> (r: u64)
        ensures
            r == self.spec_val(),
    {
        match self {
            AllocListFlags::Taken => TAKEN_BIT,
        }
    }
}

/// The header of a block: its size in the low 63 bits, the taken flag above.
#[derive(Clone, Copy, Debug, PartialEq, Eq, Structural)]
pub struct AllocList {
    pub flags_size: u64,
}

impl AllocList {
    /// The block is taken.
    pub open spec fn taken(self) -> bool {
        self.flags_size >= 0x8000_0000_0000_0000
    }

    /// Size of the block in bytes, header included.
    pub open spec fn size(self) -> int {
        self.flags_size as int % 0x8000_0000_0000_0000
    }

    /// The header of a block of `size` bytes.
    pub open spec fn spec_new(size: int, taken: bool) -> AllocList {
        AllocList {
            flags_size: if taken {
                (size + 0x8000_0000_0000_0000) as u64
            } else {
                size as u64
            },
        }
    }

    pub fn is_taken(&self) -> (r: bool)
        ensures
            r == self.taken(),
    {
        let w = self.flags_size;
        proof {
            assert((w & 0x8000_0000_0000_0000 != 0) == (w >= 0x8000_0000_0000_0000))
                by (bit_vector);
        }
        self.flags_size & AllocListFlags::Taken.val() != 0
    }

    pub fn is_free(&self) -> (r: bool)
        ensures
            r == !self.taken(),
    {
        !self.is_taken()
    }

    pub fn set_taken(&mut self)
        ensures
            final(self).taken(),
            final(self).size() == old(self).size(),
    {
        let w = self.flags_size;
        proof {
            assert((w | 0x8000_0000_0000_0000) >= 0x8000_0000_0000_0000) by (bit_vector);
            assert((w | 0x8000_0000_0000_0000) % 0x8000_0000_0000_0000 == w
                % 0x8000_0000_0000_0000) by (bit_vector);
        }
        self.flags_size = self.flags_size | AllocListFlags::Taken.val();
    }

    pub fn set_free(&mut self)
        ensures
            !final(self).taken(),
            final(self).size() == old(self).size(),
    {
        let w = self.flags_size;
        proof {
            assert((w & !0x8000_0000_0000_0000u64) < 0x8000_0000_0000_0000) by (bit_vector);
            assert((w & !0x8000_0000_0000_0000u64) % 0x8000_0000_0000_0000 == w
                % 0x8000_0000_0000_0000) by (bit_vector);
        }
        self.flags_size = self.flags_size & !AllocListFlags::Taken.val();
    }

    /// Stores the low 63 bits of `sz` as the size and keeps the taken flag.
    pub fn set_size(&mut self, sz: u64)
        ensures
            final(self).taken() == old(self).taken(),
            final(self).size() == sz as int % 0x8000_0000_0000_0000,
    {
        let k = self.is_taken();
        proof {
            assert((sz & !0x8000_0000_0000_0000u64) < 0x8000_0000_0000_0000) by (bit_vector);
            assert((sz & !0x8000_0000_0000_0000u64) == sz % 0x8000_0000_0000_0000)
                by (bit_vector);
            assert(((sz & !0x8000_0000_0000_0000u64) | 0x8000_0000_0000_0000)
                >= 0x8000_0000_0000_0000) by (bit_vector);
            assert(((sz & !0x8000_0000_0000_0000u64) | 0x8000_0000_0000_0000)
                % 0x8000_0000_0000_0000 == sz % 0x8000_0000_0000_0000) by (bit_vector);
        }
        self.flags_size = sz & !AllocListFlags::Taken.val();
        if k {
            self.flags_size = self.flags_size | AllocListFlags::Taken.val();
        }
    }

    pub fn get_size(&self) -> (r: u64)
        ensures
            r == self.size(),
    {
        let w = self.flags_size;
        proof {
            assert((w & !0x8000_0000_0000_0000u64) == w % 0x8000_0000_0000_0000) by (bit_vector);
        }
        self.flags_size & !AllocListFlags::Taken.val()
    }
}

/// Sum of the sizes of the blocks `blocks`.
pub open spec fn total_size(blocks: Seq<AllocList>) -> int
    decreases blocks.len(),
{
    if blocks.len() == 0 {
        0
    } else {
        total_size(blocks.drop_last()) + blocks.last().size()
    }
}

/// Offset of block `i` from the start of the pool: the sizes of the blocks
/// before it.
pub open spec fn block_offset(blocks: Seq<AllocList>, i: int) -> int {
    total_size(blocks.take(i))
}

/// Every block has room for its header, and its size is a multiple of eight.
pub open spec fn blocks_wf(blocks: Seq<AllocList>) -> bool {
    forall|i: int|
        0 <= i < blocks.len() ==> (#[trigger] blocks[i]).size() >= 8 && blocks[i].size() % 8 == 0
}

/// Block `i` is free and has room for `need` bytes.
pub open spec fn block_fits(blocks: Seq<AllocList>, need: int, i: int) -> bool {
    0 <= i < blocks.len() && !blocks[i].taken() && need <= blocks[i].size()
}

/// Block `i` is the first one that is free and has room for `need` bytes.
pub open spec fn first_block_fit(blocks: Seq<AllocList>, need: int, i: int) -> bool {
    &&& block_fits(blocks, need, i)
    &&& forall|k: int| 0 <= k < i ==> !block_fits(blocks, need, k)
}

/// Index of the first block that is free and has room for `need` bytes.
pub open spec fn fit_index(blocks: Seq<AllocList>, need: int) -> int {
    choose|i: int| first_block_fit(blocks, need, i)
}

/// Number of bytes that a request for `sz` bytes takes from the pool: `sz`
/// rounded up to a multiple of eight, and the header.
pub open spec fn block_need(sz: int) -> int {
    spec_align_val(sz, 3) + 8
}

/// The blocks after block `i` has been handed out for `need` bytes. What the
/// block holds beyond `need` bytes is split off as a free block of its own if
/// it is more than a header; else the whole block is handed out.
pub open spec fn carve(blocks: Seq<AllocList>, need: int, i: int) -> Seq<AllocList> {
    let chunk = blocks[i].size();
    if chunk - need > 8 {
        blocks.update(i, AllocList::spec_new(need, true)).insert(
            i + 1,
            AllocList::spec_new(chunk - need, false),
        )
    } else {
        blocks.update(i, AllocList::spec_new(chunk, true))
    }
}

/// In a pool at `head`, `ptr` is the address that is handed out for block
/// `i` of `blocks`: the address behind the header of the block.
pub open spec fn handed_out(head: int, blocks: Seq<AllocList>, ptr: int, i: int) -> bool {
    0 <= i < blocks.len() && head + block_offset(blocks, i) + 8 == ptr
}

/// The blocks of a pool at `head` after the block for which `ptr` is handed
/// out, if there is one, has been marked free.
pub open spec fn blocks_freed(head: int, blocks: Seq<AllocList>, ptr: int) -> Seq<AllocList> {
    if exists|i: int| handed_out(head, blocks, ptr, i) {
        let i = choose|i: int| handed_out(head, blocks, ptr, i);
        blocks.update(i, AllocList::spec_new(blocks[i].size(), false))
    } else {
        blocks
    }
}

/// The blocks of a pool at `head` after the addresses `ptrs` have been
/// freed one after the other: a block is marked free, and free neighbours
/// are merged in one pass. The address 0 stands for nothing.
pub open spec fn freed_all(head: int, blocks: Seq<AllocList>, ptrs: Seq<u64>) -> Seq<AllocList>
    decreases ptrs.len(),
{
    if ptrs.len() == 0 {
        blocks
    } else {
        let before = freed_all(head, blocks, ptrs.drop_last());
        if ptrs.last() == 0 {
            before
        } else {
            coalesced(blocks_freed(head, before, ptrs.last() as int))
        }
    }
}

/// The blocks after one pass from the lowest address on, in which a free
/// block is merged with the block that follows it if that one is free too,
/// and the pass goes on behind the merged block.
pub open spec fn coalesced(blocks: Seq<AllocList>) -> Seq<AllocList>
    decreases blocks.len(),
{
    if blocks.len() < 2 {
        blocks
    } else if !blocks[0].taken() && !blocks[1].taken() {
        seq![AllocList::spec_new(blocks[0].size() + blocks[1].size(), false)] + coalesced(
            blocks.skip(2),
        )
    } else {
        seq![blocks[0]] + coalesced(blocks.skip(1))
    }
}

/// The sizes of two lists of blocks add up.
pub proof fn lemma_total_size_concat(a: Seq<AllocList>, b: Seq<AllocList>)
    ensures
        total_size(a + b) == total_size(a) + total_size(b),
    decreases b.len(),
{
    if b.len() == 0 {
        assert(a + b =~= a);
    } else {
        assert((a + b).drop_last() =~= a + b.drop_last());
        lemma_total_size_concat(a, b.drop_last());
    }
}

/// The size of one block.
pub proof fn lemma_total_size_one(b: AllocList)
    ensures
        total_size(seq![b]) == b.size(),
{
    assert(seq![b].drop_last() =~= Seq::<AllocList>::empty());
    assert(total_size(seq![b].drop_last()) == 0);
}

/// A list of blocks is the blocks before `i`, block `i`, and the blocks
/// behind it; their sizes add up accordingly.
pub proof fn lemma_total_size_split(blocks: Seq<AllocList>, i: int)
    requires
        0 <= i < blocks.len(),
    ensures
        total_size(blocks) == block_offset(blocks, i) + blocks[i].size() + total_size(
            blocks.skip(i + 1),
        ),
        block_offset(blocks, i + 1) == block_offset(blocks, i) + blocks[i].size(),
        total_size(blocks.skip(i + 1)) >= 0,
{
    assert(blocks =~= blocks.take(i) + seq![blocks[i]] + blocks.skip(i + 1));
    lemma_total_size_concat(blocks.take(i) + seq![blocks[i]], blocks.skip(i + 1));
    lemma_total_size_concat(blocks.take(i), seq![blocks[i]]);
    lemma_total_size_one(blocks[i]);
    assert(blocks.take(i + 1) =~= blocks.take(i) + seq![blocks[i]]);
    lemma_total_size_nonneg(blocks.skip(i + 1));
}

/// Sizes are not negative.
pub proof fn lemma_total_size_nonneg(blocks: Seq<AllocList>)
    ensures
        total_size(blocks) >= 0,
    decreases blocks.len(),
{
    if blocks.len() > 0 {
        lemma_total_size_nonneg(blocks.drop_last());
    }
}

/// A header is its size and its taken flag, and nothing more.
pub proof fn lemma_header_eq(a: AllocList, b: AllocList)
    requires
        a.size() == b.size(),
        a.taken() == b.taken(),
    ensures
        a == b,
{
}

/// What a new header holds.
pub proof fn lemma_header_new(size: int, taken: bool)
    requires
        0 <= size < 0x8000_0000_0000_0000,
    ensures
        AllocList::spec_new(size, taken).size() == size,
        AllocList::spec_new(size, taken).taken() == taken,
{
}

/// Handing out a fitting block keeps the blocks well formed and their sizes
/// together unchanged, and moves no block before or at `i`.
pub proof fn lemma_carve(blocks: Seq<AllocList>, need: int, i: int)
    requires
        blocks_wf(blocks),
        block_fits(blocks, need, i),
        need >= 8,
        need % 8 == 0,
    ensures
        blocks_wf(carve(blocks, need, i)),
        total_size(carve(blocks, need, i)) == total_size(blocks),
        block_offset(carve(blocks, need, i), i) == block_offset(blocks, i),
        carve(blocks, need, i)[i].taken(),
{
    let chunk = blocks[i].size();
    let after = carve(blocks, need, i);
    lemma_total_size_split(blocks, i);
    lemma_header_new(need, true);
    lemma_header_new(chunk, true);
    lemma_header_new(chunk - need, false);
    assert(after.take(i) =~= blocks.take(i));
    if chunk - need > 8 {
        lemma_total_size_split(after, i);
        lemma_total_size_split(after, i + 1);
        assert(after.skip(i + 2) =~= blocks.skip(i + 1));
        assert forall|k: int| 0 <= k < after.len() implies (#[trigger] after[k]).size() >= 8
            && after[k].size() % 8 == 0 by {
            if k < i {
                assert(after[k] == blocks[k]);
            } else if k == i {
            } else if k == i + 1 {
            } else {
                assert(after[k] == blocks[k - 1]);
            }
        }
    } else {
        lemma_total_size_split(after, i);
        assert(after.skip(i + 1) =~= blocks.skip(i + 1));
        assert forall|k: int| 0 <= k < after.len() implies (#[trigger] after[k]).size() >= 8
            && after[k].size() % 8 == 0 by {
            if k != i {
                assert(after[k] == blocks[k]);
            }
        }
    }
}

/// One pass of merging keeps the blocks well formed and their sizes together
/// unchanged.
pub proof fn lemma_coalesced(blocks: Seq<AllocList>)
    requires
        blocks_wf(blocks),
        total_size(blocks) < 0x8000_0000_0000_0000,
    ensures
        blocks_wf(coalesced(blocks)),
        total_size(coalesced(blocks)) == total_size(blocks),
        blocks.len() >= 1 ==> coalesced(blocks).len() >= 1,
    decreases blocks.len(),
{
    if blocks.len() < 2 {
    } else {
        lemma_total_size_split(blocks, 0);
        lemma_total_size_split(blocks, 1);
        assert(blocks.take(0) =~= Seq::<AllocList>::empty());
        lemma_total_size_nonneg(blocks.skip(2));
        lemma_total_size_nonneg(blocks.skip(1));
        if !blocks[0].taken() && !blocks[1].taken() {
            let rest = blocks.skip(2);
            assert forall|k: int| 0 <= k < rest.len() implies (#[trigger] rest[k]).size() >= 8
                && rest[k].size() % 8 == 0 by {
                assert(rest[k] == blocks[k + 2]);
            }
            lemma_coalesced(rest);
            let m = AllocList::spec_new(blocks[0].size() + blocks[1].size(), false);
            lemma_header_new(blocks[0].size() + blocks[1].size(), false);
            lemma_total_size_concat(seq![m], coalesced(rest));
            lemma_total_size_one(m);
            let out = coalesced(blocks);
            assert forall|k: int| 0 <= k < out.len() implies (#[trigger] out[k]).size() >= 8
                && out[k].size() % 8 == 0 by {
                if k > 0 {
                    assert(out[k] == coalesced(rest)[k - 1]);
                }
            }
        } else {
            let rest = blocks.skip(1);
            assert forall|k: int| 0 <= k < rest.len() implies (#[trigger] rest[k]).size() >= 8
                && rest[k].size() % 8 == 0 by {
                assert(rest[k] == blocks[k + 1]);
            }
            lemma_coalesced(rest);
            lemma_total_size_concat(seq![blocks[0]], coalesced(rest));
            lemma_total_size_one(blocks[0]);
            let out = coalesced(blocks);
            assert forall|k: int| 0 <= k < out.len() implies (#[trigger] out[k]).size() >= 8
                && out[k].size() % 8 == 0 by {
                if k > 0 {
                    assert(out[k] == coalesced(rest)[k - 1]);
                }
            }
        }
    }
}

/// The first fitting block is unique.
pub proof fn lemma_first_block_fit_unique(blocks: Seq<AllocList>, need: int, i: int, k: int)
    requires
        first_block_fit(blocks, need, i),
        first_block_fit(blocks, need, k),
    ensures
        i == k,
{
}

/// The byte allocator of the kernel: a pool of pages and its blocks.
pub struct Kmem {
    head: u64,
    pages: usize,
    blocks: Vec<AllocList>,
}

impl Kmem {
    /// Address of the pool.
    pub closed spec fn head(&self) -> int {
        self.head as int
    }

    /// Number of pages in the pool.
    pub closed spec fn num_pages(&self) -> int {
        self.pages as int
    }

    /// The block headers, lowest address first.
    pub closed spec fn blocks(&self) -> Seq<AllocList> {
        self.blocks@
    }

    /// Size of the pool in bytes.
    pub open spec fn size_bytes(&self) -> int {
        self.num_pages() * 4096
    }

    pub open spec fn wf(&self) -> bool {
        &&& self.head() >= 4096
        &&& self.head() % 4096 == 0
        &&& self.num_pages() >= 1
        &&& self.size_bytes() < 0x8000_0000_0000_0000
        &&& self.head() + self.size_bytes() <= u64::MAX
        &&& self.blocks().len() >= 1
        &&& blocks_wf(self.blocks())
        &&& total_size(self.blocks()) == self.size_bytes()
    }

    /// Address of the header of block `i`.
    pub open spec fn block_addr(&self, i: int) -> int {
        self.head() + block_offset(self.blocks(), i)
    }

    /// Address of the first byte behind the header of block `i`: the address
    /// that is handed out for the block.
    pub open spec fn data_addr(&self, i: int) -> int {
        self.block_addr(i) + 8
    }

    /// `ptr` is the address that is handed out for block `i`.
    pub open spec fn is_block(&self, ptr: int, i: int) -> bool {
        handed_out(self.head() as int, self.blocks(), ptr, i)
    }

    /// Index of the block for which `ptr` is handed out.
    pub open spec fn block_of(&self, ptr: int) -> int {
        choose|i: int| handed_out(self.head() as int, self.blocks(), ptr, i)
    }

    /// The blocks after the block for which `ptr` is handed out, if there is
    /// one, has been marked free.
    pub open spec fn freed(&self, ptr: int) -> Seq<AllocList> {
        blocks_freed(self.head() as int, self.blocks(), ptr)
    }

    /// The pool lies in the memory that `alloc` manages.
    pub open spec fn within(&self, alloc: PageAllocator) -> bool {
        alloc.start() <= self.head() && self.head() + self.size_bytes() <= alloc.end()
    }
}

/// Reserves a pool of 64 cleared pages from `alloc`: one free block spans it.
/// `None`, with nothing changed, when `alloc` has no run of 64 free pages.
pub fn init(alloc: &mut PageAllocator) -> (r: Option<Kmem>)
    requires
        old(alloc).wf(),
    ensures
        final(alloc).wf(),
        final(alloc).start() == old(alloc).start(),
        final(alloc).num_pages() == old(alloc).num_pages(),
        match r {
            None => crate::page::exhausted(old(alloc).pages(), 64) && *final(alloc) == *old(alloc),
            Some(heap) => {
                let i = old(alloc).page_index(heap.head());
                &&& heap.wf()
                &&& heap.within(*final(alloc))
                &&& heap.num_pages() == 64
                &&& heap.blocks() == seq![AllocList::spec_new(262144, false)]
                &&& old(alloc).is_page_addr(heap.head())
                &&& crate::page::first_fit(old(alloc).pages(), 64, i)
                &&& final(alloc).pages() == crate::page::mark_run(old(alloc).pages(), i, 64)
                &&& final(alloc).memory() == crate::page::zeroed(
                    old(alloc).memory(),
                    i * 4096,
                    (i + 64) * 4096,
                )
            },
        },
{
    let head = alloc.zalloc(KMEM_PAGES);
    if head == 0 {
        return None;
    }
    let mut first = AllocList { flags_size: 0 };
    first.set_free();
    first.set_size((KMEM_PAGES as u64) * crate::page::PAGE_SIZE);
    let mut blocks: Vec<AllocList> = Vec::new();
    blocks.push(first);
    proof {
        lemma_header_new(262144, false);
        lemma_header_eq(first, AllocList::spec_new(262144, false));
        assert(blocks@ =~= seq![AllocList::spec_new(262144, false)]);
        lemma_total_size_one(first);
        let i = old(alloc).page_index(head as int);
        assert(crate::page::free_range(old(alloc).pages(), i, 64));
    }
    Some(Kmem { head, pages: KMEM_PAGES, blocks })
}

/// Address of the pool.
pub fn get_head(heap: &Kmem) -> (r: u64)
    ensures
        r == heap.head(),
{
    heap.head
}

/// Number of pages in the pool.
pub fn get_num_allocations(heap: &Kmem) -> (r: usize)
    ensures
        r == heap.num_pages(),
{
    heap.pages
}

/// Hands out the first free block that has room for `sz` bytes, rounded up
/// to a multiple of eight, and a header. Returns the address behind the
/// block's header, or 0, with nothing changed, when no block fits.
pub fn kmalloc(heap: &mut Kmem, sz: u64) -> (ptr: u64)
    requires
        old(heap).wf(),
    ensures
        final(heap).wf(),
        final(heap).head() == old(heap).head(),
        final(heap).num_pages() == old(heap).num_pages(),
        ptr == 0 <==> forall|i: int| !block_fits(old(heap).blocks(), block_need(sz as int), i),
        ptr == 0 ==> final(heap).blocks() == old(heap).blocks(),
        ptr != 0 ==> {
            let need = block_need(sz as int);
            let i = fit_index(old(heap).blocks(), need);
            &&& first_block_fit(old(heap).blocks(), need, i)
            &&& ptr == old(heap).data_addr(i)
            &&& final(heap).is_block(ptr as int, i)
            &&& final(heap).blocks() == carve(old(heap).blocks(), need, i)
            &&& ptr % 8 == 0
            &&& ptr + need - 8 <= old(heap).head() + old(heap).size_bytes()
        },
{
    let pool: u64 = (heap.pages as u64) * crate::page::PAGE_SIZE;
    proof {
        vstd::arithmetic::power2::lemma2_to64();
    }
    if sz > pool {
        proof {
            assert forall|i: int| !block_fits(heap.blocks(), block_need(sz as int), i) by {
                if 0 <= i < heap.blocks().len() {
                    lemma_total_size_split(heap.blocks(), i);
                    lemma_total_size_nonneg(heap.blocks().take(i));
                    assert(spec_align_val(sz as int, 3) >= sz) by (nonlinear_arith)
                        requires
                            spec_align_val(sz as int, 3) == ((sz + 8 - 1) / 8) * 8,
                    ;
                }
            }
        }
        return 0;
    }
    let size: u64 = align_val(sz, 3) + HEADER_SIZE;
    let total = heap.blocks.len();
    let mut i: usize = 0;
    let mut off: u64 = 0;
    while i < total
        invariant
            i <= total,
            total == heap.blocks@.len(),
            *heap == *old(heap),
            heap.wf(),
            size == block_need(sz as int),
            size >= 8,
            size % 8 == 0,
            off == block_offset(heap.blocks@, i as int),
            off <= heap.size_bytes(),
            forall|k: int| 0 <= k < i ==> !block_fits(heap.blocks@, size as int, k),
        decreases total - i,
    {
        let block = heap.blocks[i];
        let chunk = block.get_size();
        proof {
            lemma_total_size_split(heap.blocks@, i as int);
        }
        if block.is_free() && size <= chunk {
            return hand_out(heap, i, size, off);
        }
        off = off + chunk;
        i = i + 1;
    }
    0
}

/// Hands out block `i`, the first that fits, for `size` bytes; `off` is the
/// offset of the block.
fn hand_out(heap: &mut Kmem, i: usize, size: u64, off: u64) -> (ptr: u64)
    requires
        old(heap).wf(),
        first_block_fit(old(heap).blocks(), size as int, i as int),
        size >= 8,
        size % 8 == 0,
        off == block_offset(old(heap).blocks(), i as int),
    ensures
        final(heap).wf(),
        final(heap).head() == old(heap).head(),
        final(heap).num_pages() == old(heap).num_pages(),
        ptr != 0,
        i == fit_index(old(heap).blocks(), size as int),
        ptr == old(heap).data_addr(i as int),
        final(heap).is_block(ptr as int, i as int),
        final(heap).blocks() == carve(old(heap).blocks(), size as int, i as int),
        ptr % 8 == 0,
        ptr + size - 8 <= old(heap).head() + old(heap).size_bytes(),
{
    let ghost before = heap.blocks@;
    let _ = heap.blocks.len();
    let mut block = heap.blocks[i];
    let chunk = block.get_size();
    let rem: u64 = chunk - size;
    proof {
        lemma_total_size_split(before, i as int);
        lemma_total_size_nonneg(before.take(i as int));
        lemma_first_block_fit_unique(before, size as int, i as int, fit_index(before, size as int));
        lemma_carve(before, size as int, i as int);
        lemma_header_new(size as int, true);
        lemma_header_new(chunk as int, true);
        lemma_header_new(rem as int, false);
        lemma_offset_aligned(before, i as int);
    }
    block.set_taken();
    if rem > HEADER_SIZE {
        block.set_size(size);
        let mut next = AllocList { flags_size: 0 };
        next.set_free();
        next.set_size(rem);
        proof {
            lemma_header_eq(block, AllocList::spec_new(size as int, true));
            lemma_header_eq(next, AllocList::spec_new(rem as int, false));
        }
        heap.blocks.set(i, block);
        heap.blocks.insert(i + 1, next);
    } else {
        block.set_size(chunk);
        proof {
            lemma_header_eq(block, AllocList::spec_new(chunk as int, true));
        }
        heap.blocks.set(i, block);
    }
    proof {
        assert(heap.blocks@ =~= carve(before, size as int, i as int));
    }
    heap.head + off + HEADER_SIZE
}

/// Offsets of blocks are multiples of eight.
pub proof fn lemma_offset_aligned(blocks: Seq<AllocList>, i: int)
    requires
        blocks_wf(blocks),
        0 <= i <= blocks.len(),
    ensures
        block_offset(blocks, i) % 8 == 0,
        block_offset(blocks, i) >= 0,
    decreases i,
{
    if i > 0 {
        lemma_offset_aligned(blocks, i - 1);
        lemma_total_size_split(blocks, i - 1);
    } else {
        assert(blocks.take(0) =~= Seq::<AllocList>::empty());
    }
}

/// Blocks do not overlap: a block ends where the next one begins, and every
/// later block stands behind it.
pub proof fn lemma_blocks_disjoint(blocks: Seq<AllocList>, i: int, k: int)
    requires
        blocks_wf(blocks),
        0 <= i < k <= blocks.len(),
    ensures
        block_offset(blocks, i) + blocks[i].size() <= block_offset(blocks, k),
        block_offset(blocks, k) <= total_size(blocks),
    decreases k,
{
    lemma_total_size_split(blocks, k - 1);
    lemma_total_size_split(blocks, i);
    if i < k - 1 {
        lemma_blocks_disjoint(blocks, i, k - 1);
    }
    if k < blocks.len() {
        lemma_total_size_split(blocks, k);
        lemma_total_size_nonneg(blocks.take(k));
    } else {
        assert(blocks.take(k) =~= blocks);
    }
}

/// Merges, in one pass from the lowest address on, each free block with the
/// block that follows it where that one is free too; the pass goes on behind
/// the merged block, so that of three free blocks in a row the first two
/// become one and the third stays.
pub fn coalesce(heap: &mut Kmem)
    requires
        old(heap).wf(),
    ensures
        final(heap).wf(),
        final(heap).head() == old(heap).head(),
        final(heap).num_pages() == old(heap).num_pages(),
        final(heap).blocks() == coalesced(old(heap).blocks()),
{
    let mut i: usize = 0;
    proof {
        let s = heap.blocks@;
        assert(s.skip(0) =~= s);
        assert(s.take(0) + coalesced(s) =~= coalesced(s));
    }
    while heap.blocks.len() - i > 1
        invariant
            old(heap).wf(),
            heap.head == old(heap).head,
            heap.pages == old(heap).pages,
            i <= heap.blocks@.len(),
            heap.blocks@.len() >= 1,
            total_size(heap.blocks@) == old(heap).size_bytes(),
            forall|k: int|
                i <= k < heap.blocks@.len() ==> (#[trigger] heap.blocks@[k]).size() >= 8
                    && heap.blocks@[k].size() % 8 == 0,
            coalesced(old(heap).blocks@) == heap.blocks@.take(i as int) + coalesced(
                heap.blocks@.skip(i as int),
            ),
        decreases heap.blocks@.len() - i,
    {
        let a = heap.blocks[i];
        let b = heap.blocks[i + 1];
        let ghost before = heap.blocks@;
        let ghost rest = before.skip(i as int);
        proof {
            assert(rest[0] == before[i as int]);
            assert(rest[1] == before[i + 1]);
            lemma_total_size_split(before, i as int);
            lemma_total_size_split(before, i + 1);
            lemma_total_size_nonneg(before.take(i as int));
        }
        if a.is_free() && b.is_free() {
            let mut m = a;
            m.set_size(a.get_size() + b.get_size());
            heap.blocks.set(i, m);
            heap.blocks.remove(i + 1);
            proof {
                let after = heap.blocks@;
                lemma_header_new(a.size() + b.size(), false);
                lemma_header_eq(m, AllocList::spec_new(a.size() + b.size(), false));
                assert(rest.skip(2) =~= before.skip(i + 2));
                assert(after.skip(i + 1) =~= before.skip(i + 2));
                assert(after.take(i + 1) =~= before.take(i as int) + seq![m]);
                assert(before.take(i as int) + (seq![m] + coalesced(before.skip(i + 2)))
                    =~= (before.take(i as int) + seq![m]) + coalesced(before.skip(i + 2)));
                assert(after.take(i as int) =~= before.take(i as int));
                lemma_total_size_split(after, i as int);
                assert forall|k: int| i + 1 <= k < after.len() implies (#[trigger] after[k]).size()
                    >= 8 && after[k].size() % 8 == 0 by {
                    assert(after[k] == before[k + 1]);
                }
            }
        } else {
            proof {
                assert(rest.skip(1) =~= before.skip(i + 1));
                assert(before.take(i + 1) =~= before.take(i as int) + seq![before[i as int]]);
                assert(before.take(i as int) + (seq![before[i as int]] + coalesced(
                    before.skip(i + 1),
                )) =~= (before.take(i as int) + seq![before[i as int]]) + coalesced(
                    before.skip(i + 1),
                ));
            }
        }
        i = i + 1;
    }
    proof {
        let s = heap.blocks@;
        assert(s.skip(i as int).len() < 2);
        assert(s.take(i as int) + s.skip(i as int) =~= s);
        lemma_coalesced(old(heap).blocks@);
    }
}

/// Marks the block free for which `ptr` was handed out, and merges free
/// neighbours in one pass. A `ptr` of 0 changes nothing; for a `ptr` that
/// belongs to no block only the merging pass is made.
pub fn kfree(heap: &mut Kmem, ptr: u64)
    requires
        old(heap).wf(),
    ensures
        final(heap).wf(),
        final(heap).head() == old(heap).head(),
        final(heap).num_pages() == old(heap).num_pages(),
        ptr == 0 ==> final(heap).blocks() == old(heap).blocks(),
        ptr != 0 ==> final(heap).blocks() == coalesced(old(heap).freed(ptr as int)),
{
    if ptr == 0 {
        return ;
    }
    let total = heap.blocks.len();
    let mut i: usize = 0;
    let mut off: u64 = 0;
    while i < total
        invariant
            i <= total,
            total == heap.blocks@.len(),
            heap.wf(),
            heap.head == old(heap).head,
            heap.pages == old(heap).pages,
            heap.blocks@.len() == old(heap).blocks@.len(),
            i < total ==> heap.blocks@ == old(heap).blocks@,
            i == total ==> heap.blocks@ == old(heap).freed(ptr as int),
            off == block_offset(old(heap).blocks@, i as int) || i == total,
            i < total ==> off <= heap.size_bytes(),
            forall|k: int| 0 <= k < i && i < total ==> !old(heap).is_block(ptr as int, k),
        decreases total - i,
    {
        let mut block = heap.blocks[i];
        proof {
            lemma_total_size_split(heap.blocks@, i as int);
        }
        if heap.head + off + HEADER_SIZE == ptr {
            proof {
                assert(handed_out(old(heap).head(), old(heap).blocks(), ptr as int, i as int));
                let j = old(heap).block_of(ptr as int);
                assert(handed_out(old(heap).head(), old(heap).blocks(), ptr as int, j));
                if j < i {
                    lemma_blocks_disjoint(old(heap).blocks@, j, i as int);
                } else if i < j {
                    lemma_blocks_disjoint(old(heap).blocks@, i as int, j);
                }
                lemma_header_new(block.size(), false);
            }
            let ghost size = block.size();
            block.set_free();
            proof {
                lemma_header_eq(block, AllocList::spec_new(size, false));
            }
            heap.blocks.set(i, block);
            proof {
                let after = heap.blocks@;
                let before = old(heap).blocks@;
                assert(after.take(i as int) =~= before.take(i as int));
                assert(after.skip(i + 1) =~= before.skip(i + 1));
                lemma_total_size_split(after, i as int);
                lemma_total_size_split(before, i as int);
                assert forall|k: int| 0 <= k < after.len() implies (#[trigger] after[k]).size() >= 8
                    && after[k].size() % 8 == 0 by {
                    if k != i {
                        assert(after[k] == before[k]);
                    }
                }
            }
            i = total;
        } else {
            off = off + block.get_size();
            i = i + 1;
            proof {
                if i == total {
                    assert forall|k: int|
                        !handed_out(old(heap).head(), old(heap).blocks(), ptr as int, k) by {
                        if 0 <= k < total {
                            assert(!old(heap).is_block(ptr as int, k));
                        }
                    }
                }
            }
        }
    }
    coalesce(heap);
}

/// As `kmalloc`, and clears the bytes of the block that it hands out: `sz`
/// rounded up to a multiple of eight.
pub fn kzmalloc(heap: &mut Kmem, alloc: &mut PageAllocator, sz: u64) -> (ptr: u64)
    requires
        old(heap).wf(),
        old(alloc).wf(),
        old(heap).within(*old(alloc)),
    ensures
        final(heap).wf(),
        final(heap).head() == old(heap).head(),
        final(heap).num_pages() == old(heap).num_pages(),
        final(alloc).wf(),
        final(alloc).start() == old(alloc).start(),
        final(alloc).pages() == old(alloc).pages(),
        ptr == 0 <==> forall|i: int| !block_fits(old(heap).blocks(), block_need(sz as int), i),
        ptr == 0 ==> final(heap).blocks() == old(heap).blocks() && final(alloc).memory() == old(
            alloc,
        ).memory(),
        ptr != 0 ==> {
            let need = block_need(sz as int);
            let i = fit_index(old(heap).blocks(), need);
            &&& first_block_fit(old(heap).blocks(), need, i)
            &&& ptr == old(heap).data_addr(i)
            &&& final(heap).is_block(ptr as int, i)
            &&& final(heap).blocks() == carve(old(heap).blocks(), need, i)
            &&& final(alloc).memory() == crate::page::zeroed(
                old(alloc).memory(),
                ptr - old(alloc).start(),
                ptr - old(alloc).start() + need - 8,
            )
        },
{
    let ptr = kmalloc(heap, sz);
    if ptr != 0 {
        proof {
            vstd::arithmetic::power2::lemma2_to64();
            lemma_offset_aligned(
                old(heap).blocks(),
                fit_index(old(heap).blocks(), block_need(sz as int)),
            );
            assert(spec_align_val(sz as int, 3) >= sz) by (nonlinear_arith)
                requires
                    spec_align_val(sz as int, 3) == ((sz + 8 - 1) / 8) * 8,
            ;
        }
        let size = align_val(sz, 3);
        let ok = alloc.clear(ptr, size);
        assert(ok);
    }
    ptr
}

} // verus!
