//! Physical page allocator.
//!
//! The allocator manages a contiguous run of 4096-byte pages that starts at a
//! page-aligned address. For every page it keeps one descriptor: whether the
//! page is taken, and, on the first page of an allocation, how many pages the
//! allocation spans. An allocation is therefore freed as one unit, from its
//! start address alone.

use vstd::prelude::*;

verus! {

/// Number of address bits inside one page.
pub const PAGE_ORDER: u64 = 12;

/// Size of one physical page in bytes.
pub const PAGE_SIZE: u64 = 4096;

/// `val` rounded up to the next multiple of `2^order`.
pub open spec fn spec_align_val(val: int, order: nat) -> int {
    let unit = vstd::arithmetic::power2::pow2(order) as int;
    ((val + unit - 1) / unit) * unit
}

/// Rounds `val` up to the next multiple of `2^order`.
pub fn align_val(val: u64, order: u64) -> (r: u64)
    requires
        order < 64,
        val + vstd::arithmetic::power2::pow2(order as nat) - 1 <= u64::MAX,
    ensures
        r == spec_align_val(val as int, order as nat),
        val <= r < val + vstd::arithmetic::power2::pow2(order as nat),
        r as int % vstd::arithmetic::power2::pow2(order as nat) as int == 0,
{
    let unit: u64 = 1u64 << order;
    let ghost p = vstd::arithmetic::power2::pow2(order as nat) as int;
    proof {
        vstd::bits::lemma_u64_pow2_no_overflow(order as nat);
        vstd::bits::lemma_u64_shl_is_mul(1u64, order);
        assert(unit == p);
        assert(p > 0);
    }
    let o: u64 = unit - 1;
    let sum: u64 = val + o;
    let r: u64 = sum & !o;
    proof {
        assert(r == sum - (sum & o)) by (bit_vector)
            requires
                r == sum & !o,
        ;
        vstd::bits::lemma_u64_low_bits_mask_is_mod(sum, order as nat);
        assert(sum & o == sum as int % p);
        vstd::arithmetic::div_mod::lemma_fundamental_div_mod(sum as int, p);
        vstd::arithmetic::div_mod::lemma_mod_bound(sum as int, p);
        vstd::arithmetic::div_mod::lemma_mod_multiples_basic(sum as int / p, p);
        assert(p * (sum as int / p) == (sum as int / p) * p) by (nonlinear_arith);
    }
    r
}

/// Descriptor of one physical page.
#[derive(Clone, Copy, Debug, PartialEq, Eq, Structural)]
pub struct Page {
    /// The page belongs to a live allocation.
    pub taken: bool,
    /// Length in pages of the allocation that begins at this page; zero on
    /// every other page.
    pub run: usize,
}

impl Page {
    /// The descriptor of a free page.
    pub open spec fn spec_free() -> Page {
        Page { taken: false, run: 0 }
    }

    pub fn free() -> (p: Page)
        ensures
            p == Page::spec_free(),
    {
        Page { taken: false, run: 0 }
    }
}

/// All pages of `[i, i + n)` exist and are free.
pub open spec fn free_range(pages: Seq<Page>, i: int, n: int) -> bool {
    &&& 0 <= i
    &&& i + n <= pages.len()
    &&& forall|j: int| i <= j < i + n ==> !(#[trigger] pages[j]).taken
}

/// `i` is the lowest page index at which `n` free pages begin.
pub open spec fn first_fit(pages: Seq<Page>, n: int, i: int) -> bool {
    &&& free_range(pages, i, n)
    &&& forall|k: int| 0 <= k < i ==> !free_range(pages, k, n)
}

/// No run of `n` free pages exists.
pub open spec fn exhausted(pages: Seq<Page>, n: int) -> bool {
    forall|k: int| !free_range(pages, k, n)
}

/// The descriptors after an allocation of `n` pages has been placed at `i`.
pub open spec fn mark_run(pages: Seq<Page>, i: int, n: int) -> Seq<Page> {
    Seq::new(
        pages.len(),
        |j: int|
            if j == i {
                Page { taken: true, run: n as usize }
            } else if i < j < i + n {
                Page { taken: true, run: 0 }
            } else {
                pages[j]
            },
    )
}

/// The descriptors after the `n` pages from `i` on have been released.
pub open spec fn clear_run(pages: Seq<Page>, i: int, n: int) -> Seq<Page> {
    Seq::new(
        pages.len(),
        |j: int|
            if i <= j < i + n {
                Page::spec_free()
            } else {
                pages[j]
            },
    )
}

/// Index of the lowest free page.
pub open spec fn first_free(pages: Seq<Page>) -> int {
    choose|i: int| first_fit(pages, 1, i)
}

/// The descriptors after the lowest free page has been taken as an
/// allocation of its own.
pub open spec fn take_one(pages: Seq<Page>) -> Seq<Page> {
    mark_run(pages, first_free(pages), 1)
}

/// The memory after the lowest free page has been cleared.
pub open spec fn zero_one(pages: Seq<Page>, memory: Seq<u8>) -> Seq<u8> {
    zeroed(memory, first_free(pages) * 4096, first_free(pages) * 4096 + 4096)
}

/// Index of the page at which a request for `n` pages is placed: the lowest
/// page at which `n` free pages begin.
pub open spec fn fit(pages: Seq<Page>, n: int) -> int {
    choose|i: int| first_fit(pages, n, i)
}

/// The descriptors after the requests for `sizes[0]`, `sizes[1]`, ... pages
/// have been served one after the other.
pub open spec fn after_requests(pages: Seq<Page>, sizes: Seq<usize>) -> Seq<Page>
    decreases sizes.len(),
{
    if sizes.len() == 0 {
        pages
    } else {
        let before = after_requests(pages, sizes.drop_last());
        mark_run(before, fit(before, sizes.last() as int), sizes.last() as int)
    }
}

/// The requests for `sizes[0]`, `sizes[1]`, ... pages can be served one after
/// the other.
pub open spec fn requests_fit(pages: Seq<Page>, sizes: Seq<usize>) -> bool
    decreases sizes.len(),
{
    if sizes.len() == 0 {
        true
    } else {
        &&& requests_fit(pages, sizes.drop_last())
        &&& !exhausted(after_requests(pages, sizes.drop_last()), sizes.last() as int)
    }
}

/// Number of pages that the requests `sizes` ask for together.
pub open spec fn sum_sizes(sizes: Seq<usize>) -> int
    decreases sizes.len(),
{
    if sizes.len() == 0 {
        0
    } else {
        sum_sizes(sizes.drop_last()) + sizes.last()
    }
}

/// Index of the page at which request `k` of `sizes` is placed.
pub open spec fn request_index(pages: Seq<Page>, sizes: Seq<usize>, k: int) -> int {
    fit(after_requests(pages, sizes.take(k)), sizes[k] as int)
}

/// The memory after the pages of the requests `sizes` have been cleared.
pub open spec fn cleared(pages: Seq<Page>, memory: Seq<u8>, sizes: Seq<usize>) -> Seq<u8>
    decreases sizes.len(),
{
    if sizes.len() == 0 {
        memory
    } else {
        let i = fit(after_requests(pages, sizes.drop_last()), sizes.last() as int);
        zeroed(cleared(pages, memory, sizes.drop_last()), i * 4096, (i + sizes.last()) * 4096)
    }
}

/// The descriptors after `n` requests for one page each.
pub open spec fn pages_after(pages: Seq<Page>, n: nat) -> Seq<Page>
    decreases n,
{
    if n == 0 {
        pages
    } else {
        take_one(pages_after(pages, (n - 1) as nat))
    }
}

/// The memory after `n` requests for one cleared page each.
pub open spec fn memory_after(pages: Seq<Page>, memory: Seq<u8>, n: nat) -> Seq<u8>
    decreases n,
{
    if n == 0 {
        memory
    } else {
        zero_one(pages_after(pages, (n - 1) as nat), memory_after(pages, memory, (n - 1) as nat))
    }
}

/// A live allocation begins at the address `addr`, where the first page
/// stands at `start`.
pub open spec fn run_start(start: int, pages: Seq<Page>, addr: int) -> bool {
    &&& start <= addr < start + pages.len() * 4096
    &&& (addr - start) % 4096 == 0
    &&& pages[(addr - start) / 4096].run > 0
}

/// The descriptors after the allocation that begins at `addr`, if any, has
/// been released.
pub open spec fn release(start: int, pages: Seq<Page>, addr: int) -> Seq<Page> {
    if run_start(start, pages, addr) {
        clear_run(pages, (addr - start) / 4096, pages[(addr - start) / 4096].run as int)
    } else {
        pages
    }
}

/// The descriptors after the allocations that begin at the addresses `addrs`
/// have been released one after the other.
pub open spec fn release_all(start: int, pages: Seq<Page>, addrs: Seq<u64>) -> Seq<Page>
    decreases addrs.len(),
{
    if addrs.len() == 0 {
        pages
    } else {
        release(start, release_all(start, pages, addrs.drop_last()), addrs.last() as int)
    }
}

/// `memory` with the bytes of `[from, to)` set to zero.
pub open spec fn zeroed(memory: Seq<u8>, from: int, to: int) -> Seq<u8> {
    Seq::new(
        memory.len(),
        |b: int|
            if from <= b < to {
                0u8
            } else {
                memory[b]
            },
    )
}

/// Offset of the first zero byte of `memory` at or behind the offset `at`;
/// the length of `memory` if there is none.
pub open spec fn string_end(memory: Seq<u8>, at: int) -> int
    decreases memory.len() - at,
{
    if at < 0 || at >= memory.len() {
        memory.len() as int
    } else if memory[at] == 0 {
        at
    } else {
        string_end(memory, at + 1)
    }
}

/// `memory` after `n` bytes have been copied from the offset `src` to the
/// offset `dest`, one after the other from the lowest offset on.
pub open spec fn copied(memory: Seq<u8>, dest: int, src: int, n: int) -> Seq<u8>
    decreases n,
{
    if n <= 0 {
        memory
    } else {
        let m = copied(memory, dest, src, n - 1);
        m.update(dest + n - 1, m[src + n - 1])
    }
}

/// `memory` with `data` stored from the offset `at` on.
pub open spec fn written(memory: Seq<u8>, at: int, data: Seq<u8>) -> Seq<u8> {
    Seq::new(
        memory.len(),
        |b: int|
            if at <= b < at + data.len() {
                data[b - at]
            } else {
                memory[b]
            },
    )
}

/// Descriptor invariant: a free page begins no run, and a run lies inside the
/// managed pages, covers taken pages only and holds no second run.
pub open spec fn runs_wf(pages: Seq<Page>) -> bool {
    forall|i: int|
        0 <= i < pages.len() ==> {
            let p = #[trigger] pages[i];
            &&& !p.taken ==> p.run == 0
            &&& p.run > 0 ==> i + p.run <= pages.len()
            &&& forall|j: int|
                i < j < i + p.run ==> (#[trigger] pages[j]).taken && pages[j].run == 0
        }
}

/// Number of taken pages among the first `n`.
pub open spec fn taken_count(pages: Seq<Page>, n: int) -> int
    decreases n,
{
    if n <= 0 {
        0
    } else {
        taken_count(pages, n - 1) + if pages[n - 1].taken {
            1int
        } else {
            0int
        }
    }
}

/// The physical page allocator together with the memory it manages.
pub struct PageAllocator {
    start: u64,
    pages: Vec<Page>,
    memory: Vec<u8>,
}

impl PageAllocator {
    /// Address of the first managed page.
    pub closed spec fn start(&self) -> int {
        self.start as int
    }

    /// The page descriptors, lowest address first.
    pub closed spec fn pages(&self) -> Seq<Page> {
        self.pages@
    }

    /// The contents of the managed memory, byte by byte from `start()`.
    pub closed spec fn memory(&self) -> Seq<u8> {
        self.memory@
    }

    /// Number of managed pages.
    pub open spec fn num_pages(&self) -> int {
        self.pages().len() as int
    }

    /// First address past the managed pages.
    pub open spec fn end(&self) -> int {
        self.start() + self.num_pages() * 4096
    }

    pub open spec fn wf(&self) -> bool {
        &&& self.start() > 0
        &&& self.start() % 4096 == 0
        &&& self.end() <= u64::MAX
        &&& self.memory().len() == self.num_pages() * 4096
        &&& runs_wf(self.pages())
    }

    /// `addr` is the address of a managed page.
    pub open spec fn is_page_addr(&self, addr: int) -> bool {
        &&& self.start() <= addr < self.end()
        &&& (addr - self.start()) % 4096 == 0
    }

    /// Index of the page that holds `addr`.
    pub open spec fn page_index(&self, addr: int) -> int {
        (addr - self.start()) / 4096
    }

    /// A live allocation begins at `addr`.
    pub open spec fn is_run_start(&self, addr: int) -> bool {
        run_start(self.start(), self.pages(), addr)
    }

    /// Length in pages of the allocation that begins at `addr`.
    pub open spec fn run_len(&self, addr: int) -> int {
        self.pages()[self.page_index(addr)].run as int
    }

    /// The page that holds `addr` is managed and taken.
    pub open spec fn is_taken(&self, addr: int) -> bool {
        &&& self.start() <= addr < self.end()
        &&& self.pages()[self.page_index(addr)].taken
    }

    /// Number of free pages.
    pub open spec fn free_pages(&self) -> int {
        self.num_pages() - self.taken_pages()
    }

    /// Address of the page that the request after `k` requests for one page
    /// each returns.
    pub open spec fn nth_page(&self, k: nat) -> int {
        self.start() + first_free(pages_after(self.pages(), k)) * 4096
    }

    /// `self` is `before` after `n` requests for one cleared page each.
    pub open spec fn grown_from(&self, before: PageAllocator, n: nat) -> bool {
        &&& self.start() == before.start()
        &&& self.pages() == pages_after(before.pages(), n)
        &&& self.memory() == memory_after(before.pages(), before.memory(), n)
    }

    /// `addr` lies in the managed memory.
    pub open spec fn in_memory(&self, addr: int) -> bool {
        self.start() <= addr < self.end()
    }

    /// The byte at `addr`, if `addr` lies in the managed memory.
    pub open spec fn byte_at(&self, addr: int) -> Option<u8> {
        if self.in_memory(addr) {
            Some(self.memory()[addr - self.start()])
        } else {
            None
        }
    }

    /// The bytes from `addr` up to the first zero byte or the end of the
    /// managed memory.
    pub open spec fn string_at(&self, addr: int) -> Seq<u8> {
        if self.in_memory(addr) {
            self.memory().subrange(
                addr - self.start(),
                string_end(self.memory(), addr - self.start()),
            )
        } else {
            Seq::empty()
        }
    }

    /// Number of taken pages.
    pub open spec fn taken_pages(&self) -> int {
        taken_count(self.pages(), self.num_pages())
    }

    /// An allocator over `pages` free pages from `start` on, with its memory
    /// cleared.
    pub fn new(start: u64, pages: usize) -> (a: PageAllocator)
        requires
            start > 0,
            start % 4096 == 0,
            start + pages * 4096 <= u64::MAX,
            pages * 4096 <= usize::MAX,
        ensures
            a.wf(),
            a.start() == start,
            a.num_pages() == pages,
            a.free_pages() == pages,
            forall|i: int| 0 <= i < pages ==> a.pages()[i] == Page::spec_free(),
            forall|i: int| 0 <= i < pages * 4096 ==> a.memory()[i] == 0,
    {
        let mut descriptors: Vec<Page> = Vec::new();
        let mut i: usize = 0;
        while i < pages
            invariant
                i <= pages,
                descriptors@.len() == i,
                forall|j: int| 0 <= j < i ==> descriptors@[j] == Page::spec_free(),
            decreases pages - i,
        {
            descriptors.push(Page::free());
            i = i + 1;
        }
        let bytes: usize = pages * 4096;
        let mut memory: Vec<u8> = Vec::new();
        let mut k: usize = 0;
        while k < bytes
            invariant
                k <= bytes,
                memory@.len() == k,
                forall|j: int| 0 <= j < k ==> memory@[j] == 0,
            decreases bytes - k,
        {
            memory.push(0u8);
            k = k + 1;
        }
        proof {
            lemma_none_taken(descriptors@, pages as int);
        }
        PageAllocator { start, pages: descriptors, memory }
    }

    /// Address of the first managed page.
    pub fn get_start(&self) -> (r: u64)
        ensures
            r == self.start(),
    {
        self.start
    }

    /// Number of managed pages.
    pub fn len(&self) -> (r: usize)
        ensures
            r == self.num_pages(),
    {
        self.pages.len()
    }

    /// Whether the `n` pages from `i` on are all free.
    fn is_free_range(&self, i: usize, n: usize) -> (r: bool)
        requires
            i + n <= self.pages().len(),
        ensures
            r == free_range(self.pages(), i as int, n as int),
    {
        let total = self.pages.len();
        let mut j: usize = i;
        while j < i + n
            invariant
                i <= j <= i + n,
                i + n <= total,
                total == self.pages@.len(),
                forall|k: int| i <= k < j ==> !(#[trigger] self.pages@[k]).taken,
            decreases i + n - j,
        {
            if self.pages[j].taken {
                return false;
            }
            j = j + 1;
        }
        true
    }

    /// Takes the lowest run of `pages` contiguous free pages and returns its
    /// address, or returns 0 and changes nothing when no such run exists.
    pub fn alloc_pages(&mut self, pages: usize) -> (addr: u64)
        requires
            old(self).wf(),
            pages >= 1,
        ensures
            final(self).wf(),
            final(self).start() == old(self).start(),
            final(self).memory() == old(self).memory(),
            final(self).num_pages() == old(self).num_pages(),
            addr == 0 ==> exhausted(old(self).pages(), pages as int) && *final(self) == *old(self),
            addr != 0 ==> {
                let i = old(self).page_index(addr as int);
                &&& old(self).is_page_addr(addr as int)
                &&& addr % 4096 == 0
                &&& first_fit(old(self).pages(), pages as int, i)
                &&& final(self).pages() == mark_run(old(self).pages(), i, pages as int)
                &&& final(self).is_run_start(addr as int)
                &&& final(self).run_len(addr as int) == pages
                &&& final(self).taken_pages() == old(self).taken_pages() + pages
            },
    {
        let total = self.pages.len();
        if pages > total {
            return 0;
        }
        let mut i: usize = 0;
        while i <= total - pages
            invariant
                self.wf(),
                *self == *old(self),
                total == self.pages@.len(),
                pages <= total,
                pages >= 1,
                i <= total - pages + 1,
                forall|k: int| 0 <= k < i ==> !free_range(self.pages@, k, pages as int),
            decreases total - pages + 1 - i,
        {
            if self.is_free_range(i, pages) {
                let ghost before = self.pages@;
                let mut k: usize = i;
                while k < i + pages
                    invariant
                        i <= k <= i + pages,
                        i + pages <= total,
                        total == self.pages@.len(),
                        before.len() == total,
                        self.start == old(self).start,
                        self.memory == old(self).memory,
                        forall|j: int|
                            0 <= j < total ==> #[trigger] self.pages@[j] == if i <= j < k {
                                mark_run(before, i as int, pages as int)[j]
                            } else {
                                before[j]
                            },
                    decreases i + pages - k,
                {
                    let run: usize = if k == i {
                        pages
                    } else {
                        0
                    };
                    self.pages.set(k, Page { taken: true, run });
                    k = k + 1;
                }
                proof {
                    assert(self.pages@ =~= mark_run(before, i as int, pages as int));
                    lemma_mark_run_wf(before, i as int, pages as int);
                    lemma_taken_count_mark(before, i as int, pages as int, total as int);
                    assert((i * 4096) % 4096 == 0) by (nonlinear_arith);
                    assert(i * 4096 + pages * 4096 <= total * 4096) by (nonlinear_arith)
                        requires
                            i + pages <= total,
                    ;
                }
                return self.start + (i as u64) * PAGE_SIZE;
            }
            i = i + 1;
        }
        proof {
            assert forall|k: int| !free_range(self.pages@, k, pages as int) by {
                if 0 <= k && k + pages <= total {
                    assert(k < i);
                }
            }
        }
        0
    }

    /// As `alloc_pages`, and clears every byte of the pages it returns.
    pub fn zalloc(&mut self, pages: usize) -> (addr: u64)
        requires
            old(self).wf(),
            pages >= 1,
        ensures
            final(self).wf(),
            final(self).start() == old(self).start(),
            final(self).num_pages() == old(self).num_pages(),
            addr == 0 ==> exhausted(old(self).pages(), pages as int) && *final(self) == *old(self),
            addr != 0 ==> {
                let i = old(self).page_index(addr as int);
                &&& old(self).is_page_addr(addr as int)
                &&& first_fit(old(self).pages(), pages as int, i)
                &&& final(self).pages() == mark_run(old(self).pages(), i, pages as int)
                &&& addr % 4096 == 0
                &&& final(self).is_run_start(addr as int)
                &&& final(self).run_len(addr as int) == pages
                &&& final(self).taken_pages() == old(self).taken_pages() + pages
                &&& final(self).memory() == zeroed(
                    old(self).memory(),
                    i * 4096,
                    (i + pages) * 4096,
                )
            },
    {
        let addr = self.alloc_pages(pages);
        if addr != 0 {
            let size = self.memory.len();
            proof {
                let i = old(self).page_index(addr as int);
                assert(free_range(old(self).pages(), i, pages as int));
                assert(size == self.pages@.len() * 4096);
                assert(i * 4096 <= (i + pages) * 4096 <= self.pages@.len() * 4096)
                    by (nonlinear_arith)
                    requires
                        0 <= i,
                        0 <= pages,
                        i + pages <= self.pages@.len(),
                ;
            }
            let first: usize = ((addr - self.start) / PAGE_SIZE) as usize;
            let from: usize = first * 4096;
            let to: usize = (first + pages) * 4096;
            let ghost before = self.memory@;
            let mut k: usize = from;
            while k < to
                invariant
                    from <= k <= to,
                    to <= self.memory@.len(),
                    self.memory@.len() == before.len(),
                    self.start == old(self).start,
                    self.pages@ == mark_run(old(self).pages@, first as int, pages as int),
                    forall|b: int|
                        0 <= b < before.len() ==> #[trigger] self.memory@[b] == if from <= b < k {
                            0u8
                        } else {
                            before[b]
                        },
                decreases to - k,
            {
                self.memory.set(k, 0u8);
                k = k + 1;
            }
            proof {
                assert(self.memory@ =~= zeroed(before, from as int, to as int));
            }
        }
        addr
    }

    /// Releases the allocation that begins at `ptr`. An address at which no
    /// live allocation begins is left alone.
    pub fn dealloc(&mut self, ptr: u64)
        requires
            old(self).wf(),
        ensures
            final(self).wf(),
            final(self).start() == old(self).start(),
            final(self).memory() == old(self).memory(),
            final(self).num_pages() == old(self).num_pages(),
            final(self).pages() == release(old(self).start(), old(self).pages(), ptr as int),
            old(self).is_run_start(ptr as int) ==> final(self).taken_pages() == old(
                self,
            ).taken_pages() - old(self).run_len(ptr as int),
    {
        if ptr < self.start {
            return ;
        }
        let offset: u64 = ptr - self.start;
        if offset % PAGE_SIZE != 0 {
            return ;
        }
        let total = self.pages.len();
        if offset / PAGE_SIZE >= total as u64 {
            return ;
        }
        let first: usize = (offset / PAGE_SIZE) as usize;
        let run: usize = self.pages[first].run;
        if run == 0 {
            return ;
        }
        let ghost before = self.pages@;
        let mut k: usize = first;
        while k < first + run
            invariant
                first <= k <= first + run,
                first + run <= total,
                total == self.pages@.len(),
                before.len() == total,
                self.start == old(self).start,
                self.memory == old(self).memory,
                forall|j: int|
                    0 <= j < total ==> #[trigger] self.pages@[j] == if first <= j < k {
                        Page::spec_free()
                    } else {
                        before[j]
                    },
            decreases first + run - k,
        {
            self.pages.set(k, Page::free());
            k = k + 1;
        }
        proof {
            assert(self.pages@ =~= clear_run(before, first as int, run as int));
            lemma_clear_run_wf(before, first as int);
            lemma_taken_count_clear(before, first as int, run as int, total as int);
        }
    }

    /// The byte at `addr`, or `None` for an address outside the managed
    /// memory.
    pub fn read(&self, addr: u64) -> (r: Option<u8>)
        requires
            self.wf(),
        ensures
            r == self.byte_at(addr as int),
    {
        if addr < self.start {
            return None;
        }
        let offset: u64 = addr - self.start;
        if offset >= self.memory.len() as u64 {
            return None;
        }
        Some(self.memory[offset as usize])
    }

    /// Stores `value` at `addr` and returns true; returns false and changes
    /// nothing for an address outside the managed memory.
    pub fn write(&mut self, addr: u64, value: u8) -> (ok: bool)
        requires
            old(self).wf(),
        ensures
            final(self).wf(),
            final(self).start() == old(self).start(),
            final(self).pages() == old(self).pages(),
            ok == old(self).in_memory(addr as int),
            ok ==> final(self).memory() == old(self).memory().update(
                addr - old(self).start(),
                value,
            ),
            !ok ==> final(self).memory() == old(self).memory(),
    {
        if addr < self.start {
            return false;
        }
        let offset: u64 = addr - self.start;
        if offset >= self.memory.len() as u64 {
            return false;
        }
        self.memory.set(offset as usize, value);
        true
    }

    /// Number of free pages.
    pub fn count_free(&self) -> (n: usize)
        requires
            self.wf(),
        ensures
            n == self.free_pages(),
    {
        let total = self.pages.len();
        let mut n: usize = 0;
        let mut i: usize = 0;
        while i < total
            invariant
                i <= total,
                total == self.pages@.len(),
                n == i - taken_count(self.pages@, i as int),
                n <= i,
            decreases total - i,
        {
            if !self.pages[i].taken {
                n = n + 1;
            }
            i = i + 1;
        }
        n
    }

    /// Takes and clears the lowest free page, of which there is one.
    pub fn zalloc_one(&mut self) -> (addr: u64)
        requires
            old(self).wf(),
            old(self).free_pages() >= 1,
        ensures
            final(self).wf(),
            final(self).start() == old(self).start(),
            final(self).num_pages() == old(self).num_pages(),
            addr == old(self).nth_page(0),
            addr != 0,
            addr % 4096 == 0,
            final(self).pages() == take_one(old(self).pages()),
            final(self).memory() == zero_one(old(self).pages(), old(self).memory()),
            final(self).free_pages() == old(self).free_pages() - 1,
    {
        proof {
            lemma_free_page_fits(self.pages@);
        }
        let addr = self.zalloc(1);
        proof {
            let i = old(self).page_index(addr as int);
            lemma_first_fit_unique(old(self).pages@, 1, i, first_free(old(self).pages@));
        }
        addr
    }

    /// Clears the `len` bytes from `addr` on and returns true; returns false
    /// and changes nothing where they do not all lie in the managed memory.
    pub fn clear(&mut self, addr: u64, len: u64) -> (ok: bool)
        requires
            old(self).wf(),
        ensures
            final(self).wf(),
            final(self).start() == old(self).start(),
            final(self).pages() == old(self).pages(),
            ok == (old(self).start() <= addr && addr + len <= old(self).end()),
            ok ==> final(self).memory() == zeroed(
                old(self).memory(),
                addr - old(self).start(),
                addr - old(self).start() + len,
            ),
            !ok ==> final(self).memory() == old(self).memory(),
    {
        if addr < self.start {
            return false;
        }
        let size = self.memory.len();
        let from64: u64 = addr - self.start;
        if from64 > size as u64 || len > size as u64 - from64 {
            return false;
        }
        let from: usize = from64 as usize;
        let to: usize = from + len as usize;
        let ghost before = self.memory@;
        let mut k: usize = from;
        while k < to
            invariant
                from <= k <= to,
                to <= self.memory@.len(),
                self.memory@.len() == before.len(),
                self.start == old(self).start,
                self.pages == old(self).pages,
                forall|b: int|
                    0 <= b < before.len() ==> #[trigger] self.memory@[b] == if from <= b < k {
                        0u8
                    } else {
                        before[b]
                    },
            decreases to - k,
        {
            self.memory.set(k, 0u8);
            k = k + 1;
        }
        proof {
            assert(self.memory@ =~= zeroed(before, from as int, to as int));
        }
        true
    }

    /// Serves the requests for `sizes[0]`, `sizes[1]`, ... pages one after
    /// the other and clears the pages, or serves none of them: where one of
    /// the requests finds no room, the earlier ones are undone and the result
    /// is `None`. The result holds the address of each allocation.
    pub fn reserve(&mut self, sizes: &Vec<usize>) -> (r: Option<Vec<u64>>)
        requires
            old(self).wf(),
            forall|k: int| 0 <= k < sizes@.len() ==> sizes@[k] >= 1,
        ensures
            final(self).wf(),
            final(self).start() == old(self).start(),
            final(self).num_pages() == old(self).num_pages(),
            r is Some <==> requests_fit(old(self).pages(), sizes@),
            r is None ==> final(self).pages() == old(self).pages() && final(self).memory() == old(
                self,
            ).memory(),
            r is Some ==> {
                let addrs = r->0@;
                &&& addrs.len() == sizes@.len()
                &&& forall|k: int|
                    0 <= k < sizes@.len() ==> #[trigger] addrs[k] == old(self).start()
                        + request_index(old(self).pages(), sizes@, k) * 4096
                &&& forall|k: int|
                    0 <= k < sizes@.len() ==> #[trigger] addrs[k] != 0 && addrs[k] % 4096 == 0
                        && old(self).start() <= addrs[k] && addrs[k] + sizes@[k] * 4096 <= old(
                        self,
                    ).end()
                &&& final(self).pages() == after_requests(old(self).pages(), sizes@)
                &&& final(self).memory() == cleared(old(self).pages(), old(self).memory(), sizes@)
                &&& final(self).free_pages() == old(self).free_pages() - sum_sizes(sizes@)
            },
    {
        let count = sizes.len();
        let ghost pre0 = self.pages@;
        let ghost m0 = self.memory@;
        let mut addrs: Vec<u64> = Vec::new();
        let mut k: usize = 0;
        proof {
            assert(sizes@.take(0) =~= Seq::<usize>::empty());
        }
        while k < count
            invariant
                k <= count,
                count == sizes@.len(),
                forall|j: int| 0 <= j < sizes@.len() ==> sizes@[j] >= 1,
                self.wf(),
                old(self).wf(),
                pre0 == old(self).pages@,
                m0 == old(self).memory@,
                self.start == old(self).start,
                self.memory@ == m0,
                self.pages@.len() == pre0.len(),
                self.pages@ == after_requests(pre0, sizes@.take(k as int)),
                requests_fit(pre0, sizes@.take(k as int)),
                self.taken_pages() == old(self).taken_pages() + sum_sizes(sizes@.take(k as int)),
                addrs@.len() == k,
                forall|j: int|
                    0 <= j < k ==> #[trigger] addrs@[j] == self.start + request_index(pre0, sizes@, j)
                        * 4096 && addrs@[j] != 0 && addrs@[j] % 4096 == 0 && first_fit(
                        after_requests(pre0, sizes@.take(j)),
                        sizes@[j] as int,
                        request_index(pre0, sizes@, j),
                    ) && runs_wf(after_requests(pre0, sizes@.take(j))) && addrs@[j] + sizes@[j]
                        * 4096 <= self.start + pre0.len() * 4096 && self.start <= addrs@[j],
            decreases count - k,
        {
            let ghost before = self.pages@;
            let a = self.alloc_pages(sizes[k]);
            proof {
                assert(sizes@.take(k + 1).drop_last() =~= sizes@.take(k as int));
                assert(sizes@.take(k + 1).last() == sizes@[k as int]);
            }
            if a == 0 {
                proof {
                    assert(!requests_fit(pre0, sizes@.take(k + 1)));
                    if requests_fit(pre0, sizes@) {
                        lemma_requests_fit_prefix(pre0, sizes@, k + 1);
                    }
                }
                let mut j: usize = k;
                while j > 0
                    invariant
                        j <= k,
                        k < count,
                        count == sizes@.len(),
                        self.wf(),
                        self.start == old(self).start,
                        self.memory@ == m0,
                        self.pages@.len() == pre0.len(),
                        pre0 == old(self).pages@,
                        self.pages@ == after_requests(pre0, sizes@.take(j as int)),
                        addrs@.len() == k,
                        forall|i: int| 0 <= i < sizes@.len() ==> sizes@[i] >= 1,
                        forall|i: int|
                            0 <= i < k ==> #[trigger] addrs@[i] == self.start + request_index(
                                pre0,
                                sizes@,
                                i,
                            ) * 4096 && addrs@[i] != 0 && addrs@[i] % 4096 == 0 && first_fit(
                                after_requests(pre0, sizes@.take(i)),
                                sizes@[i] as int,
                                request_index(pre0, sizes@, i),
                            ) && runs_wf(after_requests(pre0, sizes@.take(i))),
                    decreases j,
                {
                    j = j - 1;
                    proof {
                        let prev = after_requests(pre0, sizes@.take(j as int));
                        let i = request_index(pre0, sizes@, j as int);
                        assert(sizes@.take(j + 1).drop_last() =~= sizes@.take(j as int));
                        assert(sizes@.take(j + 1).last() == sizes@[j as int]);
                        assert(self.pages@ == mark_run(prev, i, sizes@[j as int] as int));
                        assert(addrs@[j as int] == self.start + i * 4096);
                        lemma_release_then_alloc_reuses(prev, sizes@[j as int] as int, i);
                        assert((i * 4096) % 4096 == 0) by (nonlinear_arith);
                        assert((i * 4096) / 4096 == i) by (nonlinear_arith);
                        assert(i * 4096 < self.pages@.len() * 4096) by (nonlinear_arith)
                            requires
                                i < self.pages@.len(),
                        ;
                    }
                    self.dealloc(addrs[j]);
                }
                proof {
                    assert(sizes@.take(0) =~= Seq::<usize>::empty());
                }
                return None;
            }
            proof {
                let i = old(self).page_index(a as int);
                lemma_first_fit_unique(
                    before,
                    sizes@[k as int] as int,
                    i,
                    fit(before, sizes@[k as int] as int),
                );
                assert(a == self.start + i * 4096);
                assert(free_range(before, i, sizes@[k as int] as int));
                assert(i * 4096 + sizes@[k as int] * 4096 <= pre0.len() * 4096) by (nonlinear_arith)
                    requires
                        0 <= i,
                        i + sizes@[k as int] <= pre0.len(),
                ;
            }
            addrs.push(a);
            k = k + 1;
        }
        proof {
            assert(sizes@.take(count as int) =~= sizes@);
            assert(sizes@.take(0) =~= Seq::<usize>::empty());
        }
        let mut z: usize = 0;
        while z < count
            invariant
                z <= count,
                count == sizes@.len(),
                self.wf(),
                self.start == old(self).start,
                pre0 == old(self).pages@,
                m0 == old(self).memory@,
                self.pages@ == after_requests(pre0, sizes@),
                self.pages@.len() == pre0.len(),
                self.taken_pages() == old(self).taken_pages() + sum_sizes(sizes@),
                self.memory@ == cleared(pre0, m0, sizes@.take(z as int)),
                addrs@.len() == count,
                forall|j: int|
                    0 <= j < count ==> #[trigger] addrs@[j] == self.start + request_index(
                        pre0,
                        sizes@,
                        j,
                    ) * 4096 && addrs@[j] != 0 && addrs@[j] % 4096 == 0 && first_fit(
                        after_requests(pre0, sizes@.take(j)),
                        sizes@[j] as int,
                        request_index(pre0, sizes@, j),
                    ) && runs_wf(after_requests(pre0, sizes@.take(j))) && addrs@[j] + sizes@[j]
                        * 4096 <= self.start + pre0.len() * 4096 && self.start <= addrs@[j],
            decreases count - z,
        {
            proof {
                let i = request_index(pre0, sizes@, z as int);
                let n = sizes@[z as int] as int;
                assert(addrs@[z as int] == self.start + i * 4096);
                assert(free_range(after_requests(pre0, sizes@.take(z as int)), i, n));
                lemma_after_requests_len(pre0, sizes@.take(z as int));
                assert(i * 4096 + n * 4096 <= self.pages@.len() * 4096) by (nonlinear_arith)
                    requires
                        0 <= i,
                        i + n <= self.pages@.len(),
                ;
                assert(sizes@.take(z + 1).drop_last() =~= sizes@.take(z as int));
                assert(sizes@.take(z + 1).last() == sizes@[z as int]);
                assert((i + n) * 4096 == i * 4096 + n * 4096) by (nonlinear_arith);
            }
            let len: u64 = (sizes[z] as u64) * PAGE_SIZE;
            let ok = self.clear(addrs[z], len);
            assert(ok);
            z = z + 1;
        }
        proof {
            assert(sizes@.take(count as int) =~= sizes@);
        }
        Some(addrs)
    }

    /// Copies `data` to the addresses from `addr` on and returns true;
    /// returns false and changes nothing where they do not all lie in the
    /// managed memory.
    pub fn store(&mut self, addr: u64, data: &Vec<u8>) -> (ok: bool)
        requires
            old(self).wf(),
        ensures
            final(self).wf(),
            final(self).start() == old(self).start(),
            final(self).pages() == old(self).pages(),
            ok == (old(self).start() <= addr && addr + data@.len() <= old(self).end()),
            ok ==> final(self).memory() == written(
                old(self).memory(),
                addr - old(self).start(),
                data@,
            ),
            !ok ==> final(self).memory() == old(self).memory(),
    {
        if addr < self.start {
            return false;
        }
        let size = self.memory.len();
        let len = data.len();
        let from64: u64 = addr - self.start;
        if from64 > size as u64 || len > size - from64 as usize {
            return false;
        }
        let from: usize = from64 as usize;
        let ghost before = self.memory@;
        let mut k: usize = 0;
        while k < len
            invariant
                k <= len,
                len == data@.len(),
                from + len <= size,
                size == self.memory@.len(),
                self.memory@.len() == before.len(),
                self.start == old(self).start,
                self.pages == old(self).pages,
                forall|b: int|
                    0 <= b < before.len() ==> #[trigger] self.memory@[b] == if from <= b < from
                        + k {
                        data@[b - from]
                    } else {
                        before[b]
                    },
            decreases len - k,
        {
            self.memory.set(from + k, data[k]);
            k = k + 1;
        }
        proof {
            assert(self.memory@ =~= written(before, from as int, data@));
        }
        true
    }

    /// The bytes from `addr` up to the first zero byte, or up to the end of
    /// the managed memory if there is none; no bytes for an address outside
    /// the managed memory.
    pub fn read_string(&self, addr: u64) -> (r: Vec<u8>)
        requires
            self.wf(),
        ensures
            r@ == self.string_at(addr as int),
    {
        let mut out: Vec<u8> = Vec::new();
        if addr < self.start {
            return out;
        }
        let size = self.memory.len();
        let from64: u64 = addr - self.start;
        if from64 >= size as u64 {
            return out;
        }
        let from: usize = from64 as usize;
        let mut k: usize = from;
        proof {
            assert(self.memory@.subrange(from as int, from as int) =~= Seq::<u8>::empty());
        }
        while k < size && self.memory[k] != 0
            invariant
                from <= k <= size,
                size == self.memory@.len(),
                out@ == self.memory@.subrange(from as int, k as int),
                string_end(self.memory@, from as int) == string_end(self.memory@, k as int),
            decreases size - k,
        {
            out.push(self.memory[k]);
            proof {
                assert(out@ =~= self.memory@.subrange(from as int, k + 1));
            }
            k = k + 1;
        }
        out
    }

    /// Copies `bytes` bytes from `src` to `dest`, one after the other from
    /// the lowest address on, and returns true; returns false and changes
    /// nothing where the bytes to read or to write do not all lie in the
    /// managed memory.
    pub fn copy(&mut self, dest: u64, src: u64, bytes: u64) -> (ok: bool)
        requires
            old(self).wf(),
        ensures
            final(self).wf(),
            final(self).start() == old(self).start(),
            final(self).pages() == old(self).pages(),
            ok == (old(self).start() <= dest && dest + bytes <= old(self).end() && old(
                self,
            ).start() <= src && src + bytes <= old(self).end()),
            ok ==> final(self).memory() == copied(
                old(self).memory(),
                dest - old(self).start(),
                src - old(self).start(),
                bytes as int,
            ),
            !ok ==> final(self).memory() == old(self).memory(),
    {
        if dest < self.start || src < self.start {
            return false;
        }
        let size = self.memory.len();
        let d64: u64 = dest - self.start;
        let s64: u64 = src - self.start;
        if d64 > size as u64 || bytes > size as u64 - d64 || s64 > size as u64 || bytes > size as u64
            - s64 {
            return false;
        }
        let d: usize = d64 as usize;
        let s: usize = s64 as usize;
        let n: usize = bytes as usize;
        let ghost before = self.memory@;
        let mut k: usize = 0;
        while k < n
            invariant
                k <= n,
                d + n <= size,
                s + n <= size,
                size == self.memory@.len(),
                self.memory@.len() == before.len(),
                self.start == old(self).start,
                self.pages == old(self).pages,
                self.memory@ == copied(before, d as int, s as int, k as int),
            decreases n - k,
        {
            let b = self.memory[s + k];
            self.memory.set(d + k, b);
            k = k + 1;
        }
        true
    }
}

/// Placing a run on free pages keeps the descriptors well formed.
pub proof fn lemma_mark_run_wf(pages: Seq<Page>, i: int, n: int)
    requires
        runs_wf(pages),
        free_range(pages, i, n),
        1 <= n <= usize::MAX,
    ensures
        runs_wf(mark_run(pages, i, n)),
{
    let after = mark_run(pages, i, n);
    assert forall|a: int| 0 <= a < after.len() implies {
        let p = #[trigger] after[a];
        &&& !p.taken ==> p.run == 0
        &&& p.run > 0 ==> a + p.run <= after.len()
        &&& forall|j: int| a < j < a + p.run ==> (#[trigger] after[j]).taken && after[j].run == 0
    } by {
        let p = after[a];
        if a == i {
        } else if i < a < i + n {
        } else {
            let q = pages[a];
            assert(p == q);
            assert forall|j: int| a < j < a + p.run implies (#[trigger] after[j]).taken
                && after[j].run == 0 by {
                assert(pages[j].taken && pages[j].run == 0);
                assert(!(i <= j < i + n));
            }
        }
    }
}

/// Releasing the run that begins at `i` keeps the descriptors well formed.
pub proof fn lemma_clear_run_wf(pages: Seq<Page>, i: int)
    requires
        runs_wf(pages),
        0 <= i < pages.len(),
        pages[i].run > 0,
    ensures
        runs_wf(clear_run(pages, i, pages[i].run as int)),
{
    let n = pages[i].run as int;
    let after = clear_run(pages, i, n);
    assert forall|a: int| 0 <= a < after.len() implies {
        let p = #[trigger] after[a];
        &&& !p.taken ==> p.run == 0
        &&& p.run > 0 ==> a + p.run <= after.len()
        &&& forall|j: int| a < j < a + p.run ==> (#[trigger] after[j]).taken && after[j].run == 0
    } by {
        let p = after[a];
        if i <= a < i + n {
        } else {
            assert(p == pages[a]);
            assert forall|j: int| a < j < a + p.run implies (#[trigger] after[j]).taken
                && after[j].run == 0 by {
                assert(pages[j].taken && pages[j].run == 0);
                if i <= j < i + n {
                    // `i` would lie inside the run of `a`, where no run begins
                    if j == i {
                    } else {
                        assert(a < i < a + p.run);
                        assert(pages[i].run == 0);
                    }
                }
            }
        }
    }
}

/// How many of the first `m` pages lie in `[i, i + n)`.
pub open spec fn overlap(i: int, n: int, m: int) -> int {
    if m <= i {
        0
    } else if m >= i + n {
        n
    } else {
        m - i
    }
}

/// Placing a run on free pages takes exactly the pages of the run.
pub proof fn lemma_taken_count_mark(pages: Seq<Page>, i: int, n: int, m: int)
    requires
        free_range(pages, i, n),
        1 <= n,
        0 <= m <= pages.len(),
    ensures
        taken_count(mark_run(pages, i, n), m) == taken_count(pages, m) + overlap(i, n, m),
    decreases m,
{
    if m > 0 {
        lemma_taken_count_mark(pages, i, n, m - 1);
        if i <= m - 1 < i + n {
            assert(!pages[m - 1].taken);
        }
    }
}

/// Releasing a run of taken pages frees exactly the pages of the run.
pub proof fn lemma_taken_count_clear(pages: Seq<Page>, i: int, n: int, m: int)
    requires
        0 <= i,
        0 <= n,
        i + n <= pages.len(),
        forall|j: int| i <= j < i + n ==> (#[trigger] pages[j]).taken,
        0 <= m <= pages.len(),
    ensures
        taken_count(clear_run(pages, i, n), m) == taken_count(pages, m) - overlap(i, n, m),
    decreases m,
{
    if m > 0 {
        lemma_taken_count_clear(pages, i, n, m - 1);
        if i <= m - 1 < i + n {
            assert(pages[m - 1].taken);
        }
    }
}

/// An allocation of `n` pages that is released again leaves the descriptors
/// as they were, so that the same request returns the same pages once more
/// and no more pages are taken than after the first allocation.
pub proof fn lemma_release_then_alloc_reuses(pages: Seq<Page>, n: int, i: int)
    requires
        runs_wf(pages),
        1 <= n <= usize::MAX,
        first_fit(pages, n, i),
    ensures
        ({
            let taken = mark_run(pages, i, n);
            let released = clear_run(taken, i, taken[i].run as int);
            &&& taken[i].run == n
            &&& released == pages
            &&& first_fit(released, n, i)
            &&& mark_run(released, i, n) == taken
        }),
{
    let taken = mark_run(pages, i, n);
    let released = clear_run(taken, i, n);
    assert forall|j: int| 0 <= j < pages.len() implies released[j] == pages[j] by {
        if i <= j < i + n {
            assert(!pages[j].taken);
            assert(pages[j].run == 0);
        }
    }
    assert(released =~= pages);
}

/// Releasing a live allocation of `n` pages makes room for `n` pages: the
/// next request for `n` pages succeeds, at the released address or below it,
/// and takes no more pages than were taken before the release.
pub proof fn lemma_release_makes_room(pages: Seq<Page>, i: int, k: int)
    requires
        runs_wf(pages),
        0 <= i < pages.len(),
        pages[i].run > 0,
        first_fit(clear_run(pages, i, pages[i].run as int), pages[i].run as int, k),
    ensures
        !exhausted(clear_run(pages, i, pages[i].run as int), pages[i].run as int),
        k <= i,
        taken_count(
            mark_run(clear_run(pages, i, pages[i].run as int), k, pages[i].run as int),
            pages.len() as int,
        ) == taken_count(pages, pages.len() as int),
{
    let n = pages[i].run as int;
    let released = clear_run(pages, i, n);
    assert(free_range(released, i, n));
    assert forall|j: int| i <= j < i + n implies (#[trigger] pages[j]).taken by {
        if j > i {
        }
    }
    lemma_taken_count_clear(pages, i, n, pages.len() as int);
    lemma_taken_count_mark(released, k, n, pages.len() as int);
}

/// `a + b` requests for one page each are `a` requests followed by `b`
/// requests.
pub proof fn lemma_pages_after_add(pages: Seq<Page>, memory: Seq<u8>, a: nat, b: nat)
    ensures
        pages_after(pages, a + b) == pages_after(pages_after(pages, a), b),
        memory_after(pages, memory, a + b) == memory_after(
            pages_after(pages, a),
            memory_after(pages, memory, a),
            b,
        ),
    decreases b,
{
    if b > 0 {
        lemma_pages_after_add(pages, memory, a, (b - 1) as nat);
    }
}

/// Requests that can be served can be served up to any point.
pub proof fn lemma_requests_fit_prefix(pages: Seq<Page>, sizes: Seq<usize>, m: int)
    requires
        0 <= m <= sizes.len(),
        requests_fit(pages, sizes),
    ensures
        requests_fit(pages, sizes.take(m)),
    decreases sizes.len(),
{
    if m == sizes.len() {
        assert(sizes.take(m) =~= sizes);
    } else {
        assert(sizes.drop_last().take(m) =~= sizes.take(m));
        lemma_requests_fit_prefix(pages, sizes.drop_last(), m);
    }
}

/// Serving requests leaves the number of descriptors as it is.
pub proof fn lemma_after_requests_len(pages: Seq<Page>, sizes: Seq<usize>)
    ensures
        after_requests(pages, sizes).len() == pages.len(),
    decreases sizes.len(),
{
    if sizes.len() > 0 {
        lemma_after_requests_len(pages, sizes.drop_last());
    }
}

/// The lowest fit is unique.
pub proof fn lemma_first_fit_unique(pages: Seq<Page>, n: int, i: int, k: int)
    requires
        first_fit(pages, n, i),
        first_fit(pages, n, k),
    ensures
        i == k,
{
}

/// Among the first `m` pages, of which not all are taken, there is a lowest
/// free one.
proof fn lemma_least_free(pages: Seq<Page>, m: int) -> (i: int)
    requires
        0 <= m <= pages.len(),
        taken_count(pages, m) < m,
    ensures
        0 <= i < m,
        !pages[i].taken,
        forall|k: int| 0 <= k < i ==> (#[trigger] pages[k]).taken,
    decreases m,
{
    lemma_taken_count_bound(pages, m - 1);
    if taken_count(pages, m - 1) < m - 1 {
        lemma_least_free(pages, m - 1)
    } else {
        assert forall|k: int| 0 <= k < m - 1 implies (#[trigger] pages[k]).taken by {
            lemma_all_taken(pages, m - 1, k);
        }
        m - 1
    }
}

/// Where the first `m` pages are free, none of them is taken.
proof fn lemma_none_taken(pages: Seq<Page>, m: int)
    requires
        0 <= m <= pages.len(),
        forall|i: int| 0 <= i < m ==> !(#[trigger] pages[i]).taken,
    ensures
        taken_count(pages, m) == 0,
    decreases m,
{
    if m > 0 {
        lemma_none_taken(pages, m - 1);
    }
}

/// No more pages are taken than there are.
pub proof fn lemma_taken_count_bound(pages: Seq<Page>, m: int)
    ensures
        0 <= taken_count(pages, m),
        m >= 0 ==> taken_count(pages, m) <= m,
    decreases m,
{
    if m > 0 {
        lemma_taken_count_bound(pages, m - 1);
    }
}

/// Where as many pages are taken as there are, each is taken.
proof fn lemma_all_taken(pages: Seq<Page>, m: int, k: int)
    requires
        0 <= k < m,
        taken_count(pages, m) == m,
    ensures
        pages[k].taken,
    decreases m,
{
    lemma_taken_count_bound(pages, m - 1);
    if k < m - 1 {
        lemma_all_taken(pages, m - 1, k);
    }
}

/// As long as a page is free, a request for one page finds its place: the
/// lowest free page.
pub proof fn lemma_free_page_fits(pages: Seq<Page>)
    requires
        taken_count(pages, pages.len() as int) < pages.len(),
    ensures
        first_fit(pages, 1, first_free(pages)),
        !exhausted(pages, 1),
{
    let i = lemma_least_free(pages, pages.len() as int);
    assert(free_range(pages, i, 1));
    assert forall|k: int| 0 <= k < i implies !free_range(pages, k, 1) by {
        assert(pages[k].taken);
    }
    assert(first_fit(pages, 1, i));
}

/// Releasing one list of allocations after another is releasing the two
/// lists joined.
pub proof fn lemma_release_all_concat(start: int, pages: Seq<Page>, a: Seq<u64>, b: Seq<u64>)
    ensures
        release_all(start, pages, a + b) == release_all(start, release_all(start, pages, a), b),
    decreases b.len(),
{
    if b.len() == 0 {
        assert(a + b =~= a);
    } else {
        assert((a + b).drop_last() =~= a + b.drop_last());
        assert((a + b).last() == b.last());
        lemma_release_all_concat(start, pages, a, b.drop_last());
    }
}

} // verus!
