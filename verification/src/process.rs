//! Processes and the table that holds them.
//!
//! A process owns its register frame, its stack, its address space and the
//! pages of its program and heap. It is created by one of the spawn routines,
//! which take the pages from the page allocator, and it is destroyed by
//! `teardown`, which hands them back. The table owns the processes: a process
//! that leaves the table is torn down on the spot.

use crate::cpu::{build_satp, gp, spec_build_satp, CpuMode, Registers, SatpMode, TrapFrame};
use crate::fs::Inode;
use crate::lock::Mutex;
use crate::mmu::{
    built_from_empty, map_all, plan_built, plan_mapped, planned_leaf, tables_for, unmap,
    virt_to_phys, Mapping, Table,
};
use crate::page::{
    after_requests, cleared, release, release_all, request_index, requests_fit, PageAllocator,
};
use std::collections::BTreeMap;
use vstd::prelude::*;

verus! {

/// Number of pages of a process stack.
pub const STACK_PAGES: usize = 16;

/// Virtual address at which the stack of a user process begins.
pub const STACK_ADDR: u64 = 0x1_0000_0000;

/// Virtual address at which the code of a user process begins.
pub const PROCESS_STARTING_ADDR: u64 = 0x2000_0000;

/// Lifecycle state of a process.
#[derive(Clone, Copy, Debug, PartialEq, Eq, Structural)]
pub enum ProcessState {
    /// The scheduler may pick the process.
    Running,
    /// The process waits for the time `sleep_until`.
    Sleeping,
    /// The process waits for a call of `set_running`.
    Waiting,
    /// The process is about to leave the table.
    Dead,
}

/// What an open file descriptor of a process stands for.
#[derive(Clone, Copy, Debug)]
pub enum FileDescriptor {
    File(Inode),
    Device(u64),
    Framebuffer,
    ButtonEvents,
    AbsoluteEvents,
    Network,
    Unknown,
}

/// The private resources of a process: its environment, its open files, its
/// working directory and the heap pages it was given.
pub struct ProcessData {
    pub environ: BTreeMap<String, String>,
    pub fdesc: BTreeMap<u16, FileDescriptor>,
    pub cwd: Vec<u8>,
    pub pages: Vec<u64>,
}

impl ProcessData {
    /// No variables, no open files, no working directory and no heap.
    pub fn new() -> (d: ProcessData)
        ensures
            d.environ@ == Map::<String, String>::empty(),
            d.fdesc@ == Map::<u16, FileDescriptor>::empty(),
            d.cwd@ == Seq::<u8>::empty(),
            d.pages@ == Seq::<u64>::empty(),
    {
        ProcessData {
            environ: BTreeMap::new(),
            fdesc: BTreeMap::new(),
            cwd: Vec::new(),
            pages: Vec::new(),
        }
    }

    /// The resources of a process that has none: as `new`.
    pub fn zero() -> (d: ProcessData)
        ensures
            d.environ@ == Map::<String, String>::empty(),
            d.fdesc@ == Map::<u16, FileDescriptor>::empty(),
            d.cwd@ == Seq::<u8>::empty(),
            d.pages@ == Seq::<u64>::empty(),
    {
        ProcessData::new()
    }
}

pub struct Process {
    /// Address of the page that holds the register frame.
    pub frame_addr: u64,
    /// The register frame.
    pub frame: TrapFrame,
    /// Address of the stack pages.
    pub stack: u64,
    /// Identifier of the process.
    pub pid: u16,
    /// The address space.
    pub root: Table,
    pub state: ProcessState,
    pub data: ProcessData,
    /// Time at which a sleeping process becomes runnable.
    pub sleep_until: u64,
    /// Address of the pages that hold the program image; 0 if there is none.
    pub program: u64,
    /// The program break: the first address above the heap.
    pub brk: u64,
}

impl Process {
    /// The address space is well formed, and the frame names its process.
    pub open spec fn wf(&self) -> bool {
        &&& self.root.wf()
        &&& self.frame.pid == self.pid
    }

    /// `self` is `before` but for its register frame, which holds `frame`.
    pub open spec fn with_frame(&self, before: Process, frame: crate::cpu::FrameView) -> bool {
        &&& *self == (Process { frame: self.frame, ..before })
        &&& self.frame@ == frame
    }

    /// Addresses of the allocations that the process owns, in the order in
    /// which `teardown` releases them: the stack, the tables below the root,
    /// the root, the frame, the program image if there is one, and the heap
    /// pages.
    pub open spec fn owned_pages(&self) -> Seq<u64> {
        seq![self.stack] + self.root.branch_pages() + seq![self.root.addr(), self.frame_addr] + (
        if self.program != 0 {
            seq![self.program]
        } else {
            Seq::<u64>::empty()
        }) + self.data.pages@
    }

    /// The physical address that the process reaches with the address
    /// `vaddr`: the translation of `vaddr` in its address space where its
    /// frame turns translation on, `vaddr` itself where it does not.
    pub open spec fn user_addr(&self, vaddr: u64) -> Option<u64> {
        if crate::cpu::translation_on(self.frame.satp) {
            self.root.translate(vaddr)
        } else {
            Some(vaddr)
        }
    }

    /// The byte that the process finds at the address `vaddr`, if the
    /// address leads into the memory of `alloc`.
    pub open spec fn user_byte(&self, alloc: PageAllocator, vaddr: u64) -> Option<u8> {
        match self.user_addr(vaddr) {
            Some(paddr) => alloc.byte_at(paddr as int),
            None => None,
        }
    }

    /// The address `k` bytes behind `buf`, as 64-bit addresses count.
    pub open spec fn offset(buf: u64, k: int) -> u64 {
        ((buf + k) % 0x1_0000_0000_0000_0000) as u64
    }

    /// Number of bytes, from `k` up to `size`, that the process can read one
    /// after the other from `buf` on before it meets one that it cannot.
    pub open spec fn readable(&self, alloc: PageAllocator, buf: u64, size: u64, k: int) -> int
        decreases size - k,
    {
        if k < 0 || k >= size || self.user_byte(alloc, Self::offset(buf, k)) is None {
            k
        } else {
            self.readable(alloc, buf, size, k + 1)
        }
    }

    /// The bytes that the process can read one after the other from `buf`
    /// on, `size` of them at most.
    pub open spec fn user_bytes(&self, alloc: PageAllocator, buf: u64, size: u64) -> Seq<u8> {
        Seq::new(
            self.readable(alloc, buf, size, 0) as nat,
            |k: int| self.user_byte(alloc, Self::offset(buf, k))->0,
        )
    }

    /// The memory after the process has stored the first `k` bytes of
    /// `bytes` one after the other from `buf` on; each byte goes where its
    /// address leads to.
    pub open spec fn user_stored(
        &self,
        alloc: PageAllocator,
        buf: u64,
        bytes: Seq<u8>,
        k: int,
    ) -> Seq<u8>
        decreases k,
    {
        if k <= 0 {
            alloc.memory()
        } else {
            self.user_stored(alloc, buf, bytes, k - 1).update(
                self.user_addr(Self::offset(buf, k - 1))->0 - alloc.start(),
                bytes[k - 1],
            )
        }
    }

    /// Stores `bytes` one after the other from `buf` on, as far as the
    /// addresses lead into the memory of `alloc`, and returns the number of
    /// bytes that were stored.
    pub fn write_bytes(&self, alloc: &mut PageAllocator, buf: u64, bytes: &Vec<u8>) -> (count: usize)
        requires
            self.wf(),
            old(alloc).wf(),
        ensures
            final(alloc).wf(),
            final(alloc).start() == old(alloc).start(),
            final(alloc).pages() == old(alloc).pages(),
            count <= bytes@.len(),
            bytes@.len() <= u64::MAX ==> count == self.readable(
                *old(alloc),
                buf,
                bytes@.len() as u64,
                0,
            ),
            final(alloc).memory() == self.user_stored(*old(alloc), buf, bytes@, count as int),
    {
        let n = bytes.len();
        let mut k: usize = 0;
        let mut stop = false;
        while k < n && !stop
            invariant
                k <= n,
                n == bytes@.len(),
                self.wf(),
                alloc.wf(),
                alloc.start() == old(alloc).start(),
                alloc.pages() == old(alloc).pages(),
                alloc.memory().len() == old(alloc).memory().len(),
                alloc.memory() == self.user_stored(*old(alloc), buf, bytes@, k as int),
                n <= u64::MAX ==> (stop ==> self.readable(*old(alloc), buf, n as u64, 0) == k),
                n <= u64::MAX ==> (!stop ==> self.readable(*old(alloc), buf, n as u64, 0)
                    == self.readable(*old(alloc), buf, n as u64, k as int)),
            decreases n - k, !stop as int,
        {
            let vaddr = buf.wrapping_add(k as u64);
            let ok = match self.translate(vaddr) {
                Some(paddr) => alloc.write(paddr, bytes[k]),
                None => false,
            };
            proof {
                assert(self.user_byte(*old(alloc), Self::offset(buf, k as int)) is Some <==> ok);
            }
            if ok {
                k = k + 1;
            } else {
                stop = true;
            }
        }
        k
    }

    /// See `user_addr`.
    pub fn translate(&self, vaddr: u64) -> (r: Option<u64>)
        requires
            self.wf(),
        ensures
            r == self.user_addr(vaddr),
    {
        if self.frame.satp >> 60 != 0 {
            virt_to_phys(&self.root, vaddr)
        } else {
            Some(vaddr)
        }
    }

    /// See `user_bytes`.
    pub fn read_bytes(&self, alloc: &PageAllocator, buf: u64, size: u64) -> (r: Vec<u8>)
        requires
            self.wf(),
            alloc.wf(),
        ensures
            r@ == self.user_bytes(*alloc, buf, size),
    {
        let mut out: Vec<u8> = Vec::new();
        let mut k: u64 = 0;
        let mut stop = false;
        while k < size && !stop
            invariant
                k <= size,
                self.wf(),
                alloc.wf(),
                !stop ==> self.readable(*alloc, buf, size, 0) == self.readable(
                    *alloc,
                    buf,
                    size,
                    k as int,
                ),
                stop ==> self.readable(*alloc, buf, size, 0) == k,
                out@.len() == k,
                forall|j: int|
                    0 <= j < k ==> #[trigger] out@[j] == self.user_byte(
                        *alloc,
                        Self::offset(buf, j),
                    )->0,
            decreases size - k, !stop as int,
        {
            let vaddr = buf.wrapping_add(k);
            let byte = match self.translate(vaddr) {
                Some(paddr) => alloc.read(paddr),
                None => None,
            };
            match byte {
                Some(b) => {
                    out.push(b);
                    k = k + 1;
                },
                None => {
                    stop = true;
                },
            }
        }
        proof {
            assert(out@ =~= self.user_bytes(*alloc, buf, size));
        }
        out
    }

    /// The address `k` pages behind `addr`, as 64-bit addresses count.
    pub open spec fn page_behind(addr: u64, k: int) -> u64 {
        ((addr + k * 4096) % 0x1_0000_0000_0000_0000) as u64
    }

    /// The mappings of a process that runs the code at `func` in user mode:
    /// its sixteen stack pages at `STACK_ADDR`, readable and writable, and
    /// the 101 pages from `func` on at their own addresses, with every
    /// permission.
    pub open spec fn default_plan(stack: u64, func: u64) -> Seq<Mapping> {
        Seq::new(
            117,
            |i: int|
                if i < 16 {
                    Mapping {
                        vaddr: (STACK_ADDR + i * 4096) as u64,
                        paddr: (stack + i * 4096) as u64,
                        bits: 22,
                    }
                } else {
                    Mapping {
                        vaddr: Self::page_behind(func, i - 16),
                        paddr: Self::page_behind(func, i - 16),
                        bits: 30,
                    }
                },
        )
    }

    /// `self` is the user process `pid` that `new_default` makes for the
    /// code at `func`, with its frame, stack and root at the addresses
    /// given.
    pub open spec fn is_default(
        &self,
        pid: u16,
        func: u64,
        frame_addr: u64,
        stack: u64,
        root: u64,
    ) -> bool {
        let plan = Self::default_plan(stack, func);
        &&& self.pid == pid
        &&& self.frame_addr == frame_addr
        &&& self.stack == stack
        &&& self.program == 0
        &&& self.brk == 0
        &&& self.root.wf()
        &&& self.root.addr() == root
        &&& forall|j2: int, j1: int, j0: int|
            #[trigger] self.root.slot(j2, j1, j0) == planned_leaf(plan, 117, (j2, j1, j0))
        &&& self.state == ProcessState::Running
        &&& self.sleep_until == 0
        &&& self.data.pages@ == Seq::<u64>::empty()
        &&& self.frame.pc == func
        &&& self.frame.mode == CpuMode::User.spec_val()
        &&& self.frame.pid == pid
        &&& self.frame.satp == spec_build_satp(SatpMode::Sv39, pid as u64, root)
        &&& self.frame.hartid == 0
        &&& self.frame.qm == 1
        &&& self.frame.regs@ == Seq::new(
            32,
            |i: int|
                if i == 2 {
                    (STACK_ADDR + 16 * 4096) as u64
                } else {
                    0u64
                },
        )
        &&& forall|i: int| 0 <= i < 32 ==> self.frame.fregs@[i] == 0
    }

    /// Number of free pages that `new_default` asks for before it begins:
    /// the pages of the process, and two pages for tables for each page it
    /// maps.
    pub open spec fn default_room() -> int {
        252
    }

    /// Makes the user process `pid` for code that stands in memory at
    /// `func`: the code is mapped where it stands, the stack at
    /// `STACK_ADDR`. `None`, with nothing changed, where `alloc` lacks the
    /// room.
    pub fn new_default(alloc: &mut PageAllocator, pid: u16, func: u64) -> (r: Option<Process>)
        requires
            old(alloc).wf(),
        ensures
            final(alloc).wf(),
            final(alloc).start() == old(alloc).start(),
            final(alloc).num_pages() == old(alloc).num_pages(),
            r is Some <==> old(alloc).free_pages() >= Self::default_room() && requests_fit(
                old(alloc).pages(),
                kernel_process_sizes(),
            ),
            r is None ==> final(alloc).pages() == old(alloc).pages() && final(alloc).memory()
                == old(alloc).memory(),
            r is Some ==> {
                let sizes = kernel_process_sizes();
                let pre0 = old(alloc).pages();
                let pages = after_requests(pre0, sizes);
                let memory = cleared(pre0, old(alloc).memory(), sizes);
                &&& r->0.wf()
                &&& r->0.is_default(
                    pid,
                    func,
                    (old(alloc).start() + request_index(pre0, sizes, 0) * 4096) as u64,
                    (old(alloc).start() + request_index(pre0, sizes, 1) * 4096) as u64,
                    (old(alloc).start() + request_index(pre0, sizes, 2) * 4096) as u64,
                )
                &&& exists|tables: nat|
                    {
                        &&& #[trigger] built_from_empty(
                            r->0.root,
                            r->0.root.addr(),
                            old(alloc).start(),
                            pages,
                            Self::default_plan(r->0.stack, func),
                            tables,
                        )
                        &&& final(alloc).pages() == crate::page::pages_after(pages, tables)
                        &&& final(alloc).memory() == crate::page::memory_after(
                            pages,
                            memory,
                            tables,
                        )
                    }
            },
    {
        if alloc.count_free() < 252 {
            return None;
        }
        let mut sizes: Vec<usize> = Vec::new();
        sizes.push(1);
        sizes.push(STACK_PAGES);
        sizes.push(1);
        proof {
            assert(sizes@ =~= kernel_process_sizes());
            reveal_with_fuel(crate::page::sum_sizes, 4);
            assert(sizes@.drop_last() =~= seq![1usize, 16usize]);
            assert(sizes@.drop_last().drop_last() =~= seq![1usize]);
            assert(crate::page::sum_sizes(sizes@) == 18);
        }
        let addrs = match alloc.reserve(&sizes) {
            Some(addrs) => addrs,
            None => {
                return None;
            },
        };
        let frame_addr = addrs[0];
        let stack = addrs[1];
        let root_addr = addrs[2];
        let ghost reserved = *alloc;
        let mut plan: Vec<Mapping> = Vec::new();
        let mut i: u64 = 0;
        while i < 117
            invariant
                i <= 117,
                stack + 16 * 4096 <= u64::MAX,
                plan@ == Self::default_plan(stack, func).take(i as int),
                forall|k: int| 0 <= k < plan@.len() ==> (#[trigger] plan@[k]).bits & 0xe != 0,
            decreases 117 - i,
        {
            proof {
                crate::mmu::lemma_permissions();
            }
            let m = if i < 16 {
                Mapping { vaddr: STACK_ADDR + i * 4096, paddr: stack + i * 4096, bits: 22 }
            } else {
                let addr = func.wrapping_add((i - 16) * 4096);
                Mapping { vaddr: addr, paddr: addr, bits: 30 }
            };
            plan.push(m);
            proof {
                let dp = Self::default_plan(stack, func);
                assert(dp.take(i + 1) =~= dp.take(i as int).push(dp[i as int]));
            }
            i = i + 1;
        }
        proof {
            let dp = Self::default_plan(stack, func);
            assert(dp.take(117) =~= dp);
        }
        let mut root = Table::new(root_addr);
        let ghost empty = root;
        map_all(&mut root, alloc, &plan);
        let mut frame = TrapFrame::new();
        frame.pc = func;
        frame.regs[gp(Registers::Sp)] = STACK_ADDR + (STACK_PAGES as u64) * 4096;
        frame.mode = CpuMode::User.val();
        frame.pid = pid as u64;
        frame.satp = build_satp(SatpMode::Sv39, pid as u64, root_addr);
        let p = Process {
            frame_addr,
            frame,
            stack,
            pid,
            root,
            state: ProcessState::Running,
            data: ProcessData::new(),
            sleep_until: 0,
            program: 0,
            brk: 0,
        };
        proof {
            assert(p.frame.regs@ =~= Seq::new(
                32,
                |i: int|
                    if i == 2 {
                        (STACK_ADDR + 16 * 4096) as u64
                    } else {
                        0u64
                    },
            ));
            empty.lemma_structure();
            assert forall|j2: int, j1: int, j0: int| #[trigger]
                p.root.slot(j2, j1, j0) == planned_leaf(
                    Self::default_plan(stack, func),
                    117,
                    (j2, j1, j0),
                ) by {
                assert(empty.slot(j2, j1, j0) is None);
            }
            let tables = tables_for(empty, plan@, plan@.len() as int);
            assert(plan_built(empty, p.root, reserved, plan@, plan@.len() as int));
            assert(p.root.addr() == root_addr);
            let pages = after_requests(old(alloc).pages(), kernel_process_sizes());
            let memory = cleared(old(alloc).pages(), old(alloc).memory(), kernel_process_sizes());
            assert(reserved.pages() == pages);
            assert(reserved.memory() == memory);
            assert(built_from_empty(
                p.root,
                p.root.addr(),
                old(alloc).start(),
                pages,
                Self::default_plan(p.stack, func),
                tables,
            ));
            assert(alloc.pages() == crate::page::pages_after(pages, tables));
            assert(alloc.memory() == crate::page::memory_after(pages, memory, tables));
        }
        Some(p)
    }

    /// Number of pages that the heap is given when the break moves up to
    /// `addr`.
    pub open spec fn heap_pages(brk: u64, addr: u64) -> int {
        (addr - brk) / 4096 + 1
    }

    /// The mappings for new heap pages at the addresses `pages`: one after
    /// the other from the break `brk` on, readable and writable for the
    /// user.
    pub open spec fn heap_plan(brk: u64, pages: Seq<u64>) -> Seq<Mapping> {
        Seq::new(
            pages.len(),
            |i: int| Mapping { vaddr: (brk + i * 4096) as u64, paddr: pages[i], bits: 22 },
        )
    }

    /// The pages that the heap is given when it grows by `n` pages: the
    /// pages that `alloc` hands out next, one by one.
    pub open spec fn heap_fresh(alloc: PageAllocator, n: int) -> Seq<u64> {
        Seq::new(n as nat, |k: int| alloc.nth_page(k as nat) as u64)
    }

    /// `self` is `before` with its heap grown by `n` pages and its break at
    /// `addr`. The pages were taken from the allocator first, one by one,
    /// and then mapped from the old break on, with the tables that their
    /// mappings needed taken after them.
    pub open spec fn heap_grown(
        &self,
        before: Process,
        alloc_before: PageAllocator,
        alloc_after: PageAllocator,
        addr: u64,
        n: int,
    ) -> bool {
        let fresh = Self::heap_fresh(alloc_before, n);
        let plan = Self::heap_plan(before.brk, fresh);
        &&& *self == (Process { root: self.root, data: self.data, brk: addr, ..before })
        &&& self.data == (ProcessData { pages: self.data.pages, ..before.data })
        &&& self.data.pages@ == before.data.pages@ + fresh
        &&& exists|taken: PageAllocator|
            {
                &&& taken.grown_from(alloc_before, n as nat)
                &&& #[trigger] plan_built(before.root, self.root, taken, plan, n)
                &&& alloc_after.grown_from(taken, tables_for(before.root, plan, n))
            }
    }

    /// What `move_break` does for a request to move the break of `before` to
    /// `addr`, and what it answers.
    pub open spec fn break_moved(
        &self,
        before: Process,
        alloc_before: PageAllocator,
        alloc_after: PageAllocator,
        addr: u64,
        answer: u64,
    ) -> bool {
        if addr <= before.brk {
            *self == before && alloc_after == alloc_before && answer == before.brk
        } else if !crate::cpu::translation_on(before.frame.satp) {
            *self == (Process { brk: addr, ..before }) && alloc_after == alloc_before && answer
                == addr
        } else if alloc_before.free_pages() < 3 * Self::heap_pages(before.brk, addr) {
            *self == before && alloc_after == alloc_before && answer == u64::MAX
        } else {
            answer == addr && self.heap_grown(
                before,
                alloc_before,
                alloc_after,
                addr,
                Self::heap_pages(before.brk, addr),
            )
        }
    }

    /// Moves the program break up to `addr` and returns the break. A break
    /// at or above `addr` stays. Where the process runs with address
    /// translation, the heap is given the pages from the old break up to the
    /// page of `addr`, each cleared and mapped for the user; `alloc` has to
    /// have three free pages for each of them, else nothing is changed and
    /// the result is the greatest address.
    pub fn move_break(&mut self, alloc: &mut PageAllocator, addr: u64) -> (answer: u64)
        requires
            old(self).wf(),
            old(alloc).wf(),
        ensures
            final(self).wf(),
            final(alloc).wf(),
            final(alloc).start() == old(alloc).start(),
            final(alloc).num_pages() == old(alloc).num_pages(),
            final(self).break_moved(*old(self), *old(alloc), *final(alloc), addr, answer),
    {
        if addr <= self.brk {
            return self.brk;
        }
        if self.frame.satp >> 60 == 0 {
            self.brk = addr;
            return addr;
        }
        let need: u64 = (addr - self.brk) / 4096 + 1;
        let free = alloc.count_free();
        if (free as u64) / 3 < need {
            return u64::MAX;
        }
        let ghost before = *self;
        let ghost alloc_before = *alloc;
        let brk = self.brk;
        let known = self.data.pages.len();
        let mut plan: Vec<Mapping> = Vec::new();
        let mut i: u64 = 0;
        proof {
            assert(self.data.pages@ =~= before.data.pages@ + Self::heap_fresh(alloc_before, 0));
            crate::mmu::lemma_permissions();
        }
        while i < need
            invariant
                i <= need,
                need == Self::heap_pages(brk, addr),
                brk == before.brk,
                addr > brk,
                alloc.wf(),
                alloc.start() == alloc_before.start(),
                alloc.num_pages() == alloc_before.num_pages(),
                *self == (Process { data: self.data, ..before }),
                self.data == (ProcessData { pages: self.data.pages, ..before.data }),
                self.data.pages@ == before.data.pages@ + Self::heap_fresh(alloc_before, i as int),
                plan@ == Self::heap_plan(brk, Self::heap_fresh(alloc_before, i as int)),
                forall|k: int| 0 <= k < plan@.len() ==> (#[trigger] plan@[k]).bits & 0xe != 0,
                alloc.grown_from(alloc_before, i as nat),
                alloc.free_pages() == alloc_before.free_pages() - i,
                alloc_before.free_pages() >= 3 * need,
                22u64 & 0xe != 0,
            decreases need - i,
        {
            let ghost alloc_i = *alloc;
            let page = alloc.zalloc_one();
            self.data.pages.push(page);
            plan.push(Mapping { vaddr: brk + i * 4096, paddr: page, bits: 22 });
            proof {
                reveal_with_fuel(crate::page::pages_after, 2);
                reveal_with_fuel(crate::page::memory_after, 2);
                assert(alloc.grown_from(alloc_i, 1));
                crate::mmu::lemma_grown_twice(alloc_before, alloc_i, *alloc, i as nat, 1);
                crate::page::lemma_pages_after_add(
                    alloc_before.pages(),
                    alloc_before.memory(),
                    i as nat,
                    0,
                );
                assert(page == alloc_before.nth_page(i as nat));
                let shorter = Self::heap_fresh(alloc_before, i as int);
                let longer = Self::heap_fresh(alloc_before, i + 1);
                assert(longer =~= shorter.push(page));
                assert(self.data.pages@ =~= before.data.pages@ + longer);
                assert(plan@ =~= Self::heap_plan(brk, longer));
            }
            i = i + 1;
        }
        let ghost taken = *alloc;
        map_all(&mut self.root, alloc, &plan);
        self.brk = addr;
        proof {
            assert(plan_built(before.root, self.root, taken, plan@, need as int));
        }
        addr
    }

    /// The greatest file descriptor at or below `k` that is open, or 2 if
    /// there is none above 2: the descriptors up to 2 belong to the console.
    pub open spec fn top_fd(fdesc: Map<u16, FileDescriptor>, k: u16) -> u16
        decreases k,
    {
        if k <= 2 {
            2
        } else if fdesc.contains_key(k) {
            k
        } else {
            Self::top_fd(fdesc, (k - 1) as u16)
        }
    }

    /// `self` is `before` with the file descriptor `fd` closed, if it was
    /// open.
    pub open spec fn closed(&self, before: Process, fd: u16) -> bool {
        if before.data.fdesc@.contains_key(fd) {
            &&& *self == (Process { data: self.data, ..before })
            &&& self.data == (ProcessData { fdesc: self.data.fdesc, ..before.data })
            &&& self.data.fdesc@ == before.data.fdesc@.remove(fd)
        } else {
            *self == before
        }
    }

    /// `self` is `before` with a file descriptor opened for `descriptor`, if
    /// there was one left.
    pub open spec fn opened(&self, before: Process, descriptor: FileDescriptor) -> bool {
        let top = Self::top_fd(before.data.fdesc@, u16::MAX);
        if top < u16::MAX {
            &&& *self == (Process { data: self.data, ..before })
            &&& self.data == (ProcessData { fdesc: self.data.fdesc, ..before.data })
            &&& self.data.fdesc@ == before.data.fdesc@.insert((top + 1) as u16, descriptor)
        } else {
            *self == before
        }
    }

    /// Opens a file descriptor for `descriptor`: the one above the greatest
    /// that is open. `None`, with nothing changed, when that would be beyond
    /// the greatest descriptor there is.
    pub fn open(&mut self, descriptor: FileDescriptor) -> (fd: Option<u16>)
        ensures
            match fd {
                None => *final(self) == *old(self) && Self::top_fd(old(self).data.fdesc@, u16::MAX)
                    == u16::MAX,
                Some(fd) => {
                    &&& fd == Self::top_fd(old(self).data.fdesc@, u16::MAX) + 1
                    &&& *final(self) == (Process { data: final(self).data, ..*old(self) })
                    &&& final(self).data == (ProcessData {
                        fdesc: final(self).data.fdesc,
                        ..old(self).data
                    })
                    &&& final(self).data.fdesc@ == old(self).data.fdesc@.insert(fd, descriptor)
                },
            },
    {
        let mut top: u16 = u16::MAX;
        while top > 2 && !self.data.fdesc.contains_key(&top)
            invariant
                *self == *old(self),
                top >= 2,
                Self::top_fd(self.data.fdesc@, u16::MAX) == Self::top_fd(self.data.fdesc@, top),
            decreases top,
        {
            top = top - 1;
        }
        if top == u16::MAX {
            return None;
        }
        self.data.fdesc.insert(top + 1, descriptor);
        Some(top + 1)
    }

    /// Closes the file descriptor `fd`. The result is false, and nothing is
    /// changed, when it is not open.
    pub fn close(&mut self, fd: u16) -> (closed: bool)
        ensures
            closed == old(self).data.fdesc@.contains_key(fd),
            !closed ==> *final(self) == *old(self),
            closed ==> {
                &&& *final(self) == (Process { data: final(self).data, ..*old(self) })
                &&& final(self).data == (ProcessData {
                    fdesc: final(self).data.fdesc,
                    ..old(self).data
                })
                &&& final(self).data.fdesc@ == old(self).data.fdesc@.remove(fd)
            },
    {
        if self.data.fdesc.contains_key(&fd) {
            self.data.fdesc.remove(&fd);
            true
        } else {
            false
        }
    }

    pub fn get_frame_address(&self) -> (r: u64)
        ensures
            r == self.frame_addr,
    {
        self.frame_addr
    }

    pub fn get_frame_mut(&mut self) -> (r: &mut TrapFrame)
        ensures
            *r == old(self).frame,
            *final(self) == (Process { frame: *final(r), ..*old(self) }),
    {
        &mut self.frame
    }

    pub fn get_frame(&self) -> (r: &TrapFrame)
        ensures
            *r == self.frame,
    {
        &self.frame
    }

    pub fn get_program_counter(&self) -> (r: u64)
        ensures
            r == self.frame.pc,
    {
        self.frame.pc
    }

    pub fn get_program_address_mut(&mut self) -> (r: u64)
        ensures
            r == old(self).program,
            *final(self) == *old(self),
    {
        self.program
    }

    pub fn get_table_address(&self) -> (r: u64)
        ensures
            r == self.root.addr(),
    {
        self.root.get_addr()
    }

    pub fn get_state(&self) -> (r: &ProcessState)
        ensures
            *r == self.state,
    {
        &self.state
    }

    pub fn set_state(&mut self, ps: ProcessState)
        ensures
            *final(self) == (Process { state: ps, ..*old(self) }),
    {
        self.state = ps;
    }

    pub fn get_pid(&self) -> (r: u16)
        ensures
            r == self.pid,
    {
        self.pid
    }

    pub fn get_sleep_until(&self) -> (r: u64)
        ensures
            r == self.sleep_until,
    {
        self.sleep_until
    }

    pub fn set_sleep_until(&mut self, until: u64)
        ensures
            *final(self) == (Process { sleep_until: until, ..*old(self) }),
    {
        self.sleep_until = until;
    }

    /// Destroys the process: releases its stack, the tables of its address
    /// space and the root, its frame, its program image and its heap pages
    /// to `alloc`, in that order.
    pub fn teardown(self, alloc: &mut PageAllocator)
        requires
            self.wf(),
            old(alloc).wf(),
        ensures
            final(alloc).wf(),
            final(alloc).start() == old(alloc).start(),
            final(alloc).memory() == old(alloc).memory(),
            final(alloc).num_pages() == old(alloc).num_pages(),
            final(alloc).pages() == release_all(
                old(alloc).start(),
                old(alloc).pages(),
                self.owned_pages(),
            ),
    {
        let Process {
            frame_addr,
            frame: _,
            stack,
            pid: _,
            root,
            state: _,
            data,
            sleep_until: _,
            program,
            brk: _,
        } = self;
        let mut root = root;
        let ghost start = alloc.start();
        let ghost pre0 = alloc.pages();
        let ghost tables = root.branch_pages();
        alloc.dealloc(stack);
        unmap(&mut root, alloc);
        alloc.dealloc(root.get_addr());
        alloc.dealloc(frame_addr);
        proof {
            lemma_release_all_one(start, pre0, stack);
            crate::page::lemma_release_all_concat(start, pre0, seq![stack], tables);
            lemma_release_all_push(start, pre0, seq![stack] + tables, root.addr());
            lemma_release_all_push(start, pre0, (seq![stack] + tables).push(root.addr()), frame_addr);
            assert((seq![stack] + tables).push(root.addr()).push(frame_addr) =~= seq![stack]
                + tables + seq![root.addr(), frame_addr]);
        }
        let ghost head = seq![stack] + tables + seq![root.addr(), frame_addr];
        let ghost image = if program != 0 {
            seq![program]
        } else {
            Seq::<u64>::empty()
        };
        if program != 0 {
            alloc.dealloc(program);
            proof {
                lemma_release_all_push(start, pre0, head, program);
                assert(head.push(program) =~= head + image);
            }
        } else {
            assert(head =~= head + image);
        }
        let n = data.pages.len();
        let mut k: usize = 0;
        while k < n
            invariant
                k <= n,
                n == data.pages@.len(),
                alloc.wf(),
                alloc.start() == start,
                alloc.memory() == old(alloc).memory(),
                alloc.num_pages() == old(alloc).num_pages(),
                alloc.pages() == release_all(start, pre0, head + image + data.pages@.take(k as int)),
            decreases n - k,
        {
            alloc.dealloc(data.pages[k]);
            proof {
                lemma_release_all_push(
                    start,
                    pre0,
                    head + image + data.pages@.take(k as int),
                    data.pages@[k as int],
                );
                assert((head + image + data.pages@.take(k as int)).push(data.pages@[k as int])
                    =~= head + image + data.pages@.take(k + 1));
            }
            k = k + 1;
        }
        proof {
            assert(data.pages@.take(n as int) =~= data.pages@);
        }
    }
}

/// Releasing a list of one allocation is releasing that allocation.
pub proof fn lemma_release_all_one(start: int, pages: Seq<crate::page::Page>, addr: u64)
    ensures
        release_all(start, pages, seq![addr]) == release(start, pages, addr as int),
{
    assert(seq![addr].drop_last() =~= Seq::<u64>::empty());
    assert(release_all(start, pages, seq![addr].drop_last()) == pages);
}

/// Releasing one more allocation after a list is releasing the longer list.
pub proof fn lemma_release_all_push(
    start: int,
    pages: Seq<crate::page::Page>,
    addrs: Seq<u64>,
    addr: u64,
)
    ensures
        release_all(start, pages, addrs.push(addr)) == release(
            start,
            release_all(start, pages, addrs),
            addr as int,
        ),
{
    assert(addrs.push(addr).drop_last() =~= addrs);
}

/// Some process of `procs` has the identifier `pid`.
pub open spec fn has_pid(procs: Seq<Process>, pid: u16) -> bool {
    exists|i: int| 0 <= i < procs.len() && (#[trigger] procs[i]).pid == pid
}

/// Position in `procs` of the process with the identifier `pid`.
pub open spec fn pid_index(procs: Seq<Process>, pid: u16) -> int {
    choose|i: int| 0 <= i < procs.len() && (#[trigger] procs[i]).pid == pid
}

/// Position `i` is the first whose process has its register frame at the
/// address `frame`.
pub open spec fn first_frame(procs: Seq<Process>, frame: u64, i: int) -> bool {
    &&& 0 <= i < procs.len()
    &&& procs[i].frame_addr == frame
    &&& forall|k: int| 0 <= k < i ==> (#[trigger] procs[k]).frame_addr != frame
}

/// Some process of `procs` has its register frame at the address `frame`.
pub open spec fn has_frame(procs: Seq<Process>, frame: u64) -> bool {
    exists|i: int| 0 <= i < procs.len() && (#[trigger] procs[i]).frame_addr == frame
}

/// Position of the first process whose register frame stands at `frame`.
pub open spec fn frame_index(procs: Seq<Process>, frame: u64) -> int {
    choose|i: int| first_frame(procs, frame, i)
}

/// The sizes in pages of what a kernel process is given, in the order of
/// the requests: the frame, the stack, and the root of the address space.
pub open spec fn kernel_process_sizes() -> Seq<usize> {
    seq![1usize, 16usize, 1usize]
}

/// The registers of a new kernel process: the return address leads to the
/// routine at `exit`, the stack pointer stands at the end of the stack, the
/// first argument register holds `arg`, and the others are zero.
pub open spec fn kernel_registers(stack: u64, arg: u64, exit: u64) -> Seq<u64> {
    Seq::new(
        32,
        |i: int|
            if i == 1 {
                exit
            } else if i == 2 {
                (stack + 16 * 4096) as u64
            } else if i == 10 {
                arg
            } else {
                0u64
            },
    )
}

/// `p` is the kernel process `pid` as the spawn routines make it: it starts
/// at `func` in machine mode without address translation, with the argument
/// `arg`, and returns into the routine at `exit`; its frame, stack and root
/// stand at the addresses given.
pub open spec fn is_kernel_process(
    p: Process,
    pid: u16,
    func: u64,
    arg: u64,
    exit: u64,
    frame_addr: u64,
    stack: u64,
    root: u64,
) -> bool {
    &&& p.pid == pid
    &&& p.frame_addr == frame_addr
    &&& p.stack == stack
    &&& p.root.wf()
    &&& p.root.addr() == root
    &&& p.root.is_empty()
    &&& p.state == ProcessState::Running
    &&& p.sleep_until == 0
    &&& p.program == 0
    &&& p.brk == 0
    &&& p.data.pages@ == Seq::<u64>::empty()
    &&& p.data.cwd@ == Seq::<u8>::empty()
    &&& p.data.fdesc@ == Map::<u16, FileDescriptor>::empty()
    &&& p.frame.pc == func
    &&& p.frame.mode == CpuMode::Machine.spec_val()
    &&& p.frame.pid == pid
    &&& p.frame.satp == 0
    &&& p.frame.hartid == 0
    &&& p.frame.qm == 1
    &&& p.frame.regs@ == kernel_registers(stack, arg, exit)
    &&& forall|i: int| 0 <= i < 32 ==> p.frame.fregs@[i] == 0
}

/// The table of all live processes, with the lock that guards it and the
/// counter that hands out identifiers.
pub struct ProcessTable {
    list: Vec<Process>,
    lock: Mutex,
    next_pid: u16,
    exit_routine: u64,
}

impl ProcessTable {
    /// The processes, first in line first.
    pub closed spec fn procs(&self) -> Seq<Process> {
        self.list@
    }

    /// The lock of the table is held.
    pub closed spec fn locked(&self) -> bool {
        self.lock.locked()
    }

    /// The identifier that the next process is given.
    pub closed spec fn next_pid(&self) -> u16 {
        self.next_pid
    }

    /// Address of the routine into which a kernel process returns.
    pub closed spec fn exit_routine(&self) -> u64 {
        self.exit_routine
    }

    /// Every process is well formed, and identifiers are positive, below the
    /// counter, and not used twice.
    pub open spec fn wf(&self) -> bool {
        &&& self.next_pid() >= 1
        &&& forall|i: int|
            0 <= i < self.procs().len() ==> (#[trigger] self.procs()[i]).wf() && 1
                <= self.procs()[i].pid < self.next_pid()
        &&& forall|i: int, j: int|
            0 <= i < j < self.procs().len() ==> (#[trigger] self.procs()[i]).pid != (
            #[trigger] self.procs()[j]).pid
    }

    /// `self` differs from `before` in its processes at most.
    pub open spec fn same_frame(&self, before: ProcessTable) -> bool {
        &&& self.locked() == before.locked()
        &&& self.next_pid() == before.next_pid()
        &&& self.exit_routine() == before.exit_routine()
    }

    /// An empty table whose lock is free; the first process gets the
    /// identifier 1. Kernel processes return into the routine at `exit`.
    pub fn new(exit: u64) -> (t: ProcessTable)
        ensures
            t.wf(),
            t.procs() == Seq::<Process>::empty(),
            !t.locked(),
            t.next_pid() == 1,
            t.exit_routine() == exit,
    {
        ProcessTable { list: Vec::new(), lock: Mutex::new(), next_pid: 1, exit_routine: exit }
    }

    /// Number of processes.
    pub fn len(&self) -> (n: usize)
        ensures
            n == self.procs().len(),
    {
        self.list.len()
    }

    /// The process at position `i`.
    pub fn get(&self, i: usize) -> (p: &Process)
        requires
            i < self.procs().len(),
        ensures
            *p == self.procs()[i as int],
    {
        &self.list[i]
    }

    /// Tries to take the lock of the table; see `Mutex::try_lock`.
    pub fn try_lock(&mut self) -> (acquired: bool)
        ensures
            acquired == !old(self).locked(),
            final(self).locked(),
            final(self).procs() == old(self).procs(),
            final(self).next_pid() == old(self).next_pid(),
            final(self).exit_routine() == old(self).exit_routine(),
    {
        self.lock.try_lock()
    }

    /// Releases the lock of the table.
    pub fn unlock(&mut self)
        ensures
            !final(self).locked(),
            final(self).procs() == old(self).procs(),
            final(self).next_pid() == old(self).next_pid(),
            final(self).exit_routine() == old(self).exit_routine(),
    {
        self.lock.unlock()
    }

    /// Position of the first process whose register frame stands at the
    /// address `frame`.
    pub fn find_frame(&self, frame: u64) -> (r: Option<usize>)
        ensures
            r is Some <==> has_frame(self.procs(), frame),
            r is Some ==> r->0 == frame_index(self.procs(), frame) && first_frame(
                self.procs(),
                frame,
                r->0 as int,
            ),
    {
        let n = self.list.len();
        let mut i: usize = 0;
        while i < n
            invariant
                i <= n,
                n == self.list@.len(),
                forall|k: int| 0 <= k < i ==> (#[trigger] self.list@[k]).frame_addr != frame,
            decreases n - i,
        {
            if self.list[i].frame_addr == frame {
                proof {
                    assert(first_frame(self.procs(), frame, i as int));
                    let j = frame_index(self.procs(), frame);
                    assert(first_frame(self.procs(), frame, j));
                }
                return Some(i);
            }
            i = i + 1;
        }
        None
    }

    /// The register frame of the process at position `i`, to be changed in
    /// place.
    pub(crate) fn frame_mut(&mut self, i: usize) -> (r: &mut TrapFrame)
        requires
            i < old(self).procs().len(),
        ensures
            *r == old(self).procs()[i as int].frame,
            final(self).procs() == old(self).procs().update(
                i as int,
                Process { frame: *final(r), ..old(self).procs()[i as int] },
            ),
            final(self).same_frame(*old(self)),
    {
        &mut self.list[i].frame
    }

    /// Stores the registers that the trap entry saved in the frame at the
    /// address `frame`: the general-purpose registers `regs`, the
    /// floating-point registers `fregs` and the program counter `pc`. The
    /// result is false, and nothing is changed, when no process has its
    /// frame there.
    pub fn store_registers(&mut self, frame: u64, regs: &[u64; 32], fregs: &[u64; 32], pc: u64) -> (found:
        bool)
        requires
            old(self).wf(),
        ensures
            final(self).wf(),
            final(self).same_frame(*old(self)),
            found == has_frame(old(self).procs(), frame),
            !found ==> final(self).procs() == old(self).procs(),
            found ==> {
                let i = frame_index(old(self).procs(), frame);
                &&& final(self).procs().len() == old(self).procs().len()
                &&& forall|j: int|
                    #![trigger final(self).procs()[j]]
                    0 <= j < old(self).procs().len() && j != i ==> final(self).procs()[j] == old(
                        self,
                    ).procs()[j]
                &&& final(self).procs()[i].with_frame(
                    old(self).procs()[i],
                    crate::cpu::FrameView {
                        regs: regs@,
                        fregs: fregs@,
                        pc: pc,
                        ..old(self).procs()[i].frame@
                    },
                )
            },
    {
        match self.find_frame(frame) {
            Some(i) => {
                let f = self.frame_mut(i);
                f.regs = *regs;
                f.fregs = *fregs;
                f.pc = pc;
                true
            },
            None => false,
        }
    }

    /// A copy of the frame at the address `frame`, to be loaded by the
    /// switch into it; `None` when no process has its frame there.
    pub fn load_frame(&self, frame: u64) -> (r: Option<TrapFrame>)
        ensures
            r is Some <==> has_frame(self.procs(), frame),
            r is Some ==> r->0 == self.procs()[frame_index(self.procs(), frame)].frame,
    {
        match self.find_frame(frame) {
            Some(i) => Some(self.list[i].frame),
            None => None,
        }
    }

    /// Sets the program counter of the process at position `i`.
    pub(crate) fn set_pc(&mut self, i: usize, pc: u64)
        requires
            old(self).wf(),
            i < old(self).procs().len(),
        ensures
            final(self).wf(),
            final(self).same_frame(*old(self)),
            final(self).procs().len() == old(self).procs().len(),
            forall|j: int|
                0 <= j < old(self).procs().len() && j != i ==> #[trigger] final(self).procs()[j]
                    == old(self).procs()[j],
            final(self).procs()[i as int].with_frame(
                old(self).procs()[i as int],
                crate::cpu::FrameView { pc: pc, ..old(self).procs()[i as int].frame@ },
            ),
    {
        let f = self.frame_mut(i);
        f.pc = pc;
    }

    /// Sets the general-purpose register `reg` of the process at position
    /// `i`.
    pub(crate) fn set_reg(&mut self, i: usize, reg: usize, value: u64)
        requires
            old(self).wf(),
            i < old(self).procs().len(),
            reg < 32,
        ensures
            final(self).wf(),
            final(self).same_frame(*old(self)),
            final(self).procs().len() == old(self).procs().len(),
            forall|j: int|
                0 <= j < old(self).procs().len() && j != i ==> #[trigger] final(self).procs()[j]
                    == old(self).procs()[j],
            final(self).procs()[i as int].with_frame(
                old(self).procs()[i as int],
                crate::cpu::FrameView {
                    regs: old(self).procs()[i as int].frame@.regs.update(reg as int, value),
                    ..old(self).procs()[i as int].frame@
                },
            ),
    {
        let f = self.frame_mut(i);
        f.regs[reg] = value;
    }

    /// Moves the program break of the process at position `i`; see
    /// `Process::move_break`.
    pub(crate) fn move_break(&mut self, i: usize, alloc: &mut PageAllocator, addr: u64) -> (answer:
        u64)
        requires
            old(self).wf(),
            old(alloc).wf(),
            i < old(self).procs().len(),
        ensures
            final(self).wf(),
            final(self).same_frame(*old(self)),
            final(alloc).wf(),
            final(alloc).start() == old(alloc).start(),
            final(alloc).num_pages() == old(alloc).num_pages(),
            final(self).procs().len() == old(self).procs().len(),
            forall|j: int|
                0 <= j < old(self).procs().len() && j != i ==> #[trigger] final(self).procs()[j]
                    == old(self).procs()[j],
            final(self).procs()[i as int].break_moved(
                old(self).procs()[i as int],
                *old(alloc),
                *final(alloc),
                addr,
                answer,
            ),
    {
        self.list[i].move_break(alloc, addr)
    }

    /// Makes the mappings of `plan` in the address space of the process at
    /// position `i`; see `map_all`.
    pub(crate) fn map_into(&mut self, i: usize, alloc: &mut PageAllocator, plan: &Vec<Mapping>)
        requires
            old(self).wf(),
            old(alloc).wf(),
            i < old(self).procs().len(),
            old(alloc).free_pages() >= 2 * plan@.len(),
            forall|k: int| 0 <= k < plan@.len() ==> (#[trigger] plan@[k]).bits & 0xe != 0,
        ensures
            final(self).wf(),
            final(self).same_frame(*old(self)),
            final(alloc).wf(),
            final(alloc).start() == old(alloc).start(),
            final(alloc).num_pages() == old(alloc).num_pages(),
            final(self).procs().len() == old(self).procs().len(),
            forall|j: int|
                0 <= j < old(self).procs().len() && j != i ==> #[trigger] final(self).procs()[j]
                    == old(self).procs()[j],
            final(self).procs()[i as int] == (Process {
                root: final(self).procs()[i as int].root,
                ..old(self).procs()[i as int]
            }),
            plan_built(
                old(self).procs()[i as int].root,
                final(self).procs()[i as int].root,
                *old(alloc),
                plan@,
                plan@.len() as int,
            ),
            final(alloc).grown_from(
                *old(alloc),
                tables_for(old(self).procs()[i as int].root, plan@, plan@.len() as int),
            ),
    {
        map_all(&mut self.list[i].root, alloc, plan);
    }

    /// Closes the file descriptor `fd` of the process at position `i`; see
    /// `Process::close`.
    pub(crate) fn close(&mut self, i: usize, fd: u16) -> (closed: bool)
        requires
            old(self).wf(),
            i < old(self).procs().len(),
        ensures
            final(self).wf(),
            final(self).same_frame(*old(self)),
            final(self).procs().len() == old(self).procs().len(),
            forall|j: int|
                0 <= j < old(self).procs().len() && j != i ==> #[trigger] final(self).procs()[j]
                    == old(self).procs()[j],
            closed == old(self).procs()[i as int].data.fdesc@.contains_key(fd),
            final(self).procs()[i as int].closed(old(self).procs()[i as int], fd),
    {
        self.list[i].close(fd)
    }

    /// Opens a file descriptor of the process at position `i`; see
    /// `Process::open`.
    pub(crate) fn open(&mut self, i: usize, descriptor: FileDescriptor) -> (fd: Option<u16>)
        requires
            old(self).wf(),
            i < old(self).procs().len(),
        ensures
            final(self).wf(),
            final(self).same_frame(*old(self)),
            final(self).procs().len() == old(self).procs().len(),
            forall|j: int|
                0 <= j < old(self).procs().len() && j != i ==> #[trigger] final(self).procs()[j]
                    == old(self).procs()[j],
            fd is Some <==> Process::top_fd(old(self).procs()[i as int].data.fdesc@, u16::MAX)
                < u16::MAX,
            fd is Some ==> fd->0 == Process::top_fd(
                old(self).procs()[i as int].data.fdesc@,
                u16::MAX,
            ) + 1,
            final(self).procs()[i as int].opened(old(self).procs()[i as int], descriptor),
    {
        self.list[i].open(descriptor)
    }

    /// Puts the process `p` at the end of the table. Its identifier is the
    /// one that the counter of the table stands at.
    pub(crate) fn add(&mut self, p: Process)
        requires
            old(self).wf(),
            p.wf(),
            p.pid == old(self).next_pid(),
            old(self).next_pid() < u16::MAX,
        ensures
            final(self).wf(),
            final(self).procs() == old(self).procs().push(p),
            final(self).next_pid() == old(self).next_pid() + 1,
            final(self).locked() == old(self).locked(),
            final(self).exit_routine() == old(self).exit_routine(),
    {
        self.next_pid = self.next_pid + 1;
        self.list.push(p);
    }

    /// The identifier that the next process is given.
    pub fn get_next_pid(&self) -> (r: u16)
        ensures
            r == self.next_pid(),
    {
        self.next_pid
    }

    /// Turns the table by one position: the first process goes to the end.
    pub fn rotate(&mut self)
        requires
            old(self).procs().len() > 0,
        ensures
            final(self).procs() == old(self).procs().skip(1).push(old(self).procs()[0]),
            final(self).same_frame(*old(self)),
    {
        let p = self.list.remove(0);
        self.list.push(p);
        proof {
            assert(self.list@ =~= old(self).list@.skip(1).push(old(self).list@[0]));
        }
    }

    /// Makes the first process running.
    pub fn promote(&mut self)
        requires
            old(self).procs().len() > 0,
        ensures
            final(self).procs() == old(self).procs().update(
                0,
                Process { state: ProcessState::Running, ..old(self).procs()[0] },
            ),
            final(self).same_frame(*old(self)),
    {
        self.list[0].set_state(ProcessState::Running);
    }

    /// Position of the process with the identifier `pid`.
    pub fn position(&self, pid: u16) -> (r: Option<usize>)
        requires
            self.wf(),
        ensures
            r is Some <==> has_pid(self.procs(), pid),
            r is Some ==> r->0 == pid_index(self.procs(), pid) && r->0 < self.procs().len()
                && self.procs()[r->0 as int].pid == pid,
    {
        self.find(pid)
    }

    /// Position of the process with the identifier `pid`.
    fn find(&self, pid: u16) -> (r: Option<usize>)
        requires
            self.wf(),
        ensures
            r is Some <==> has_pid(self.procs(), pid),
            r is Some ==> r->0 == pid_index(self.procs(), pid) && r->0 < self.procs().len()
                && self.procs()[r->0 as int].pid == pid,
    {
        let n = self.list.len();
        let mut i: usize = 0;
        while i < n
            invariant
                i <= n,
                n == self.list@.len(),
                self.wf(),
                forall|k: int| 0 <= k < i ==> (#[trigger] self.list@[k]).pid != pid,
            decreases n - i,
        {
            if self.list[i].pid == pid {
                proof {
                    let j = pid_index(self.procs(), pid);
                    assert(self.procs()[i as int].pid == pid);
                    if j < i {
                    } else if i < j {
                        assert(self.procs()[i as int].pid != self.procs()[j].pid);
                    }
                }
                return Some(i);
            }
            i = i + 1;
        }
        None
    }
}

/// The process with the identifier `pid`, or `None` when the table holds no
/// such process.
pub fn get_by_pid(table: &ProcessTable, pid: u16) -> (r: Option<&Process>)
    requires
        table.wf(),
    ensures
        r is Some <==> has_pid(table.procs(), pid),
        r is Some ==> *r->0 == table.procs()[pid_index(table.procs(), pid)] && r->0.pid == pid,
{
    match table.find(pid) {
        Some(i) => Some(&table.list[i]),
        None => None,
    }
}

/// Makes the process `pid` runnable. The result is false, and nothing is
/// changed, when the table holds no such process.
pub fn set_running(table: &mut ProcessTable, pid: u16) -> (found: bool)
    requires
        old(table).wf(),
    ensures
        final(table).wf(),
        final(table).same_frame(*old(table)),
        found == has_pid(old(table).procs(), pid),
        !found ==> final(table).procs() == old(table).procs(),
        found ==> {
            let i = pid_index(old(table).procs(), pid);
            final(table).procs() == old(table).procs().update(
                i,
                Process { state: ProcessState::Running, ..old(table).procs()[i] },
            )
        },
{
    match table.find(pid) {
        Some(i) => {
            table.list[i].set_state(ProcessState::Running);
            true
        },
        None => false,
    }
}

/// Makes the process `pid` wait until `set_running` is called for it. The
/// result is false, and nothing is changed, when the table holds no such
/// process.
pub fn set_waiting(table: &mut ProcessTable, pid: u16) -> (found: bool)
    requires
        old(table).wf(),
    ensures
        final(table).wf(),
        final(table).same_frame(*old(table)),
        found == has_pid(old(table).procs(), pid),
        !found ==> final(table).procs() == old(table).procs(),
        found ==> {
            let i = pid_index(old(table).procs(), pid);
            final(table).procs() == old(table).procs().update(
                i,
                Process { state: ProcessState::Waiting, ..old(table).procs()[i] },
            )
        },
{
    match table.find(pid) {
        Some(i) => {
            table.list[i].set_state(ProcessState::Waiting);
            true
        },
        None => false,
    }
}

/// The time at which a process that goes to sleep at `now` for `duration`
/// ticks wakes up, as the 64-bit timer counts.
pub open spec fn wake_time(now: u64, duration: u64) -> u64 {
    if now + duration > u64::MAX {
        (now + duration - 0x1_0000_0000_0000_0000) as u64
    } else {
        (now + duration) as u64
    }
}

/// Puts the process `pid` to sleep until `duration` ticks after `now`. The
/// result is false, and nothing is changed, when the table holds no such
/// process.
pub fn set_sleeping(table: &mut ProcessTable, pid: u16, duration: u64, now: u64) -> (found: bool)
    requires
        old(table).wf(),
    ensures
        final(table).wf(),
        final(table).same_frame(*old(table)),
        found == has_pid(old(table).procs(), pid),
        !found ==> final(table).procs() == old(table).procs(),
        found ==> {
            let i = pid_index(old(table).procs(), pid);
            final(table).procs() == old(table).procs().update(
                i,
                Process {
                    state: ProcessState::Sleeping,
                    sleep_until: wake_time(now, duration),
                    ..old(table).procs()[i]
                },
            )
        },
{
    match table.find(pid) {
        Some(i) => {
            table.list[i].set_state(ProcessState::Sleeping);
            table.list[i].set_sleep_until(now.wrapping_add(duration));
            true
        },
        None => false,
    }
}

/// Removes the process `pid` from the table and tears it down. Nothing is
/// changed when the table holds no such process.
pub fn delete_process(table: &mut ProcessTable, alloc: &mut PageAllocator, pid: u16)
    requires
        old(table).wf(),
        old(alloc).wf(),
    ensures
        final(table).wf(),
        final(table).same_frame(*old(table)),
        final(alloc).wf(),
        final(alloc).start() == old(alloc).start(),
        final(alloc).memory() == old(alloc).memory(),
        final(alloc).num_pages() == old(alloc).num_pages(),
        !has_pid(old(table).procs(), pid) ==> final(table).procs() == old(table).procs()
            && final(alloc).pages() == old(alloc).pages(),
        has_pid(old(table).procs(), pid) ==> {
            let i = pid_index(old(table).procs(), pid);
            &&& final(table).procs() == old(table).procs().remove(i)
            &&& final(alloc).pages() == release_all(
                old(alloc).start(),
                old(alloc).pages(),
                old(table).procs()[i].owned_pages(),
            )
        },
{
    match table.find(pid) {
        Some(i) => {
            let p = table.list.remove(i);
            p.teardown(alloc);
        },
        None => {},
    }
}

/// Adds a kernel process that starts at the address `func`, and returns its
/// identifier. The process is runnable at once. The result is 0, and nothing
/// is changed, when the identifiers are used up or `alloc` has no room for
/// the frame, the stack and the root of the process.
pub fn add_kernel_process(table: &mut ProcessTable, alloc: &mut PageAllocator, func: u64) -> (pid:
    u16)
    requires
        old(table).wf(),
        old(alloc).wf(),
    ensures
        final(table).locked() == old(table).locked(),
        final(table).exit_routine() == old(table).exit_routine(),
        spawned(
            old(table).procs(),
            old(table).next_pid(),
            *final(table),
            *old(alloc),
            *final(alloc),
            func,
            0,
            pid,
        ),
{
    add_kernel_process_args(table, alloc, func, 0)
}

/// What the spawn routines for kernel processes do to a table that held the
/// processes `procs` and whose counter stood at `next_pid`: `pid` is 0 and
/// nothing has changed, or `pid` is the identifier of a new process at the
/// end of the table.
pub open spec fn spawned(
    procs: Seq<Process>,
    next_pid: u16,
    after: ProcessTable,
    alloc_before: PageAllocator,
    alloc_after: PageAllocator,
    func: u64,
    arg: u64,
    pid: u16,
) -> bool {
    let sizes = kernel_process_sizes();
    let pre0 = alloc_before.pages();
    &&& after.wf()
    &&& alloc_after.wf()
    &&& alloc_after.start() == alloc_before.start()
    &&& alloc_after.num_pages() == alloc_before.num_pages()
    &&& pid != 0 <==> next_pid < u16::MAX && requests_fit(pre0, sizes)
    &&& pid == 0 ==> {
        &&& after.procs() == procs
        &&& after.next_pid() == next_pid
        &&& alloc_after.pages() == pre0
        &&& alloc_after.memory() == alloc_before.memory()
    }
    &&& pid != 0 ==> {
        &&& pid == next_pid
        &&& after.next_pid() == pid + 1
        &&& after.procs().len() == procs.len() + 1
        &&& after.procs().drop_last() == procs
        &&& is_kernel_process(
            after.procs().last(),
            pid,
            func,
            arg,
            after.exit_routine(),
            (alloc_before.start() + request_index(pre0, sizes, 0) * 4096) as u64,
            (alloc_before.start() + request_index(pre0, sizes, 1) * 4096) as u64,
            (alloc_before.start() + request_index(pre0, sizes, 2) * 4096) as u64,
        )
        &&& alloc_after.pages() == after_requests(pre0, sizes)
        &&& alloc_after.memory() == cleared(pre0, alloc_before.memory(), sizes)
    }
}

/// As `add_kernel_process`; the process finds `args` in its first argument
/// register.
pub fn add_kernel_process_args(
    table: &mut ProcessTable,
    alloc: &mut PageAllocator,
    func: u64,
    args: u64,
) -> (pid: u16)
    requires
        old(table).wf(),
        old(alloc).wf(),
    ensures
        final(table).locked() == old(table).locked(),
        final(table).exit_routine() == old(table).exit_routine(),
        spawned(
            old(table).procs(),
            old(table).next_pid(),
            *final(table),
            *old(alloc),
            *final(alloc),
            func,
            args,
            pid,
        ),
{
    if table.next_pid == u16::MAX {
        return 0;
    }
    let mut sizes: Vec<usize> = Vec::new();
    sizes.push(1);
    sizes.push(STACK_PAGES);
    sizes.push(1);
    proof {
        assert(sizes@ =~= kernel_process_sizes());
    }
    let addrs = match alloc.reserve(&sizes) {
        Some(addrs) => addrs,
        None => {
            return 0;
        },
    };
    let frame_addr = addrs[0];
    let stack = addrs[1];
    let root_addr = addrs[2];
    let my_pid = table.next_pid;
    let mut frame = TrapFrame::new();
    frame.pc = func;
    frame.regs[gp(Registers::A0)] = args;
    frame.regs[gp(Registers::Ra)] = table.exit_routine;
    frame.regs[gp(Registers::Sp)] = stack + (STACK_PAGES as u64) * 4096;
    frame.mode = CpuMode::Machine.val();
    frame.pid = my_pid as u64;
    let p = Process {
        frame_addr,
        frame,
        stack,
        pid: my_pid,
        root: Table::new(root_addr),
        state: ProcessState::Running,
        data: ProcessData::new(),
        sleep_until: 0,
        program: 0,
        brk: 0,
    };
    proof {
        assert(p.frame.regs@ =~= kernel_registers(stack, args, table.exit_routine));
    }
    table.next_pid = table.next_pid + 1;
    table.list.push(p);
    proof {
        assert(table.procs().drop_last() =~= old(table).procs());
    }
    my_pid
}

/// Adds a user process for code that stands in memory at `func`; see
/// `Process::new_default`. The result is the identifier of the process, or 0
/// with nothing changed where the identifiers are used up or `alloc` lacks
/// the room.
pub fn add_process_default(table: &mut ProcessTable, alloc: &mut PageAllocator, func: u64) -> (pid:
    u16)
    requires
        old(table).wf(),
        old(alloc).wf(),
    ensures
        final(table).wf(),
        final(table).locked() == old(table).locked(),
        final(table).exit_routine() == old(table).exit_routine(),
        final(alloc).wf(),
        final(alloc).start() == old(alloc).start(),
        final(alloc).num_pages() == old(alloc).num_pages(),
        pid != 0 <==> old(table).next_pid() < u16::MAX && old(alloc).free_pages()
            >= Process::default_room() && requests_fit(old(alloc).pages(), kernel_process_sizes()),
        pid == 0 ==> {
            &&& final(table).procs() == old(table).procs()
            &&& final(table).next_pid() == old(table).next_pid()
            &&& final(alloc).pages() == old(alloc).pages()
            &&& final(alloc).memory() == old(alloc).memory()
        },
        pid != 0 ==> {
            let sizes = kernel_process_sizes();
            let pre0 = old(alloc).pages();
            &&& pid == old(table).next_pid()
            &&& final(table).next_pid() == pid + 1
            &&& final(table).procs().len() == old(table).procs().len() + 1
            &&& final(table).procs().drop_last() == old(table).procs()
            &&& final(table).procs().last().is_default(
                pid,
                func,
                (old(alloc).start() + request_index(pre0, sizes, 0) * 4096) as u64,
                (old(alloc).start() + request_index(pre0, sizes, 1) * 4096) as u64,
                (old(alloc).start() + request_index(pre0, sizes, 2) * 4096) as u64,
            )
        },
{
    let pid = table.next_pid;
    if pid == u16::MAX {
        return 0;
    }
    match Process::new_default(alloc, pid, func) {
        Some(p) => {
            table.add(p);
            proof {
                assert(table.procs().drop_last() =~= old(table).procs());
            }
            pid
        },
        None => 0,
    }
}

/// Creates the process table with its first process: a kernel process that
/// starts at the address `first`. The result holds the table and the address
/// at which the first process of the table starts, 0 if the table is empty
/// because `alloc` had no room for the process.
pub fn init(alloc: &mut PageAllocator, first: u64, exit: u64) -> (r: (ProcessTable, u64))
    requires
        old(alloc).wf(),
    ensures
        !r.0.locked(),
        r.0.exit_routine() == exit,
        spawned(
            Seq::<Process>::empty(),
            1,
            r.0,
            *old(alloc),
            *final(alloc),
            first,
            0,
            (r.0.next_pid() - 1) as u16,
        ),
        r.1 == if r.0.next_pid() == 2 {
            first
        } else {
            0
        },
{
    let mut table = ProcessTable::new(exit);
    let pid = add_kernel_process(&mut table, alloc, first);
    let pc = if table.list.len() > 0 {
        table.list[0].get_program_counter()
    } else {
        0
    };
    proof {
        if pid != 0 {
            assert(table.procs().len() == 1);
            assert(table.procs()[0] == table.procs().last());
        }
    }
    (table, pc)
}

/// Ends the wait of the process `pid` with the answer `value`: the process,
/// if it is still in the table, is made runnable and finds the answer in
/// its return register. A `pid` of 0 stands for no process.
pub fn wake(table: &mut ProcessTable, pid: u16, value: u64) -> (woken: bool)
    requires
        old(table).wf(),
    ensures
        final(table).wf(),
        final(table).same_frame(*old(table)),
        woken == (pid > 0 && has_pid(old(table).procs(), pid)),
        !woken ==> final(table).procs() == old(table).procs(),
        woken ==> {
            let i = pid_index(old(table).procs(), pid);
            let p = old(table).procs()[i];
            &&& final(table).procs().len() == old(table).procs().len()
            &&& forall|j: int|
                0 <= j < old(table).procs().len() && j != i ==> #[trigger] final(table).procs()[j]
                    == old(table).procs()[j]
            &&& final(table).procs()[i].with_frame(
                Process { state: ProcessState::Running, ..p },
                crate::cpu::FrameView { regs: p.frame@.regs.update(10, value), ..p.frame@ },
            )
        },
{
    if pid == 0 {
        return false;
    }
    if !set_running(table, pid) {
        return false;
    }
    proof {
        let i = pid_index(old(table).procs(), pid);
        assert(table.procs()[i].pid == pid);
    }
    match table.position(pid) {
        Some(i) => {
            table.set_reg(i, gp(Registers::A0), value);
            true
        },
        None => false,
    }
}

} // verus!
