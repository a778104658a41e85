//! Loader for executable images in the ELF format.
//!
//! An image is a string of bytes. `File::load` checks that it is an
//! executable for this machine and collects its loadable segments;
//! `File::load_proc` makes a process of it: the segments are copied into
//! pages of their own and mapped at the addresses they ask for, a stack is
//! mapped at its fixed address, and the frame is set to start at the entry
//! point in user mode.

use crate::cpu::{build_satp, gp, spec_build_satp, CpuMode, Registers, SatpMode, TrapFrame};
use crate::mmu::{
    built_from_empty, map_all, plan_built, planned_leaf, tables_for, Mapping, Table,
};
use crate::page::{
    after_requests, cleared, request_index, requests_fit, sum_sizes, written, PageAllocator,
};
use crate::process::{Process, ProcessData, ProcessState, STACK_ADDR, STACK_PAGES};
use vstd::prelude::*;

verus! {

/// The first four bytes of an image, read as a little-endian word: `0x7f`,
/// `E`, `L`, `F`.
pub const MAGIC: u32 = 0x464c_457f;

/// Type of an executable image.
pub const TYPE_EXEC: u16 = 2;

/// Segment flag: the segment may be executed.
pub const PROG_EXECUTE: u32 = 1;

/// Segment flag: the segment may be written.
pub const PROG_WRITE: u32 = 2;

/// Segment flag: the segment may be read.
pub const PROG_READ: u32 = 4;

/// Machine identifier of this machine.
pub const MACHINE_RISCV: u16 = 0xf3;

pub const PH_SEG_TYPE_NULL: u32 = 0;

/// Type of a segment that is loaded into memory.
pub const PH_SEG_TYPE_LOAD: u32 = 1;

pub const PH_SEG_TYPE_DYNAMIC: u32 = 2;

pub const PH_SEG_TYPE_INTERP: u32 = 3;

pub const PH_SEG_TYPE_NOTE: u32 = 4;

/// Size of the image header in bytes.
pub const HEADER_SIZE: usize = 64;

/// Size of a program header in bytes.
pub const PROGRAM_HEADER_SIZE: usize = 56;

/// The header of an image.
#[derive(Clone, Copy, Debug)]
pub struct Header {
    pub magic: u32,
    pub bitsize: u8,
    pub endian: u8,
    pub ident_abi_version: u8,
    pub target_platform: u8,
    pub abi_version: u8,
    pub padding: [u8; 7],
    pub obj_type: u16,
    pub machine: u16,
    pub version: u32,
    pub entry_addr: u64,
    pub phoff: u64,
    pub shoff: u64,
    pub flags: u32,
    pub ehsize: u16,
    pub phentsize: u16,
    pub phnum: u16,
    pub shentsize: u16,
    pub shnum: u16,
    pub shstrndx: u16,
}

/// The header of a segment.
#[derive(Clone, Copy, Debug, PartialEq, Eq, Structural)]
pub struct ProgramHeader {
    pub seg_type: u32,
    pub flags: u32,
    pub off: u64,
    pub vaddr: u64,
    pub paddr: u64,
    pub filesz: u64,
    pub memsz: u64,
    pub align: u64,
}

/// A loadable segment: its header and its bytes.
#[derive(Debug)]
pub struct Program {
    pub header: ProgramHeader,
    pub data: Vec<u8>,
}

/// Why an image was not loaded.
#[derive(Clone, Copy, Debug, PartialEq, Eq, Structural)]
pub enum LoadErrors {
    /// The image does not begin with the magic number.
    Magic,
    /// The image is for another machine.
    Machine,
    /// The image is not an executable.
    TypeExec,
    /// The image ends before what its headers announce.
    FileRead,
    /// There is no room for the process.
    Memory,
}

/// An image, taken apart.
#[derive(Debug)]
pub struct File {
    pub header: Header,
    pub programs: Vec<Program>,
}

/// The two bytes from `off` on as a little-endian number.
pub open spec fn le16(bytes: Seq<u8>, off: int) -> int {
    bytes[off] + bytes[off + 1] * 0x100
}

/// The four bytes from `off` on as a little-endian number.
pub open spec fn le32(bytes: Seq<u8>, off: int) -> int {
    le16(bytes, off) + le16(bytes, off + 2) * 0x1_0000
}

/// The eight bytes from `off` on as a little-endian number.
pub open spec fn le64(bytes: Seq<u8>, off: int) -> int {
    le32(bytes, off) + le32(bytes, off + 4) * 0x1_0000_0000
}

pub(crate) fn read16(bytes: &Vec<u8>, off: usize) -> (r: u16)
    requires
        off + 2 <= bytes@.len(),
    ensures
        r == le16(bytes@, off as int),
{
    let _ = bytes.len();
    (bytes[off] as u16) + (bytes[off + 1] as u16) * 0x100
}

pub(crate) fn read32(bytes: &Vec<u8>, off: usize) -> (r: u32)
    requires
        off + 4 <= bytes@.len(),
    ensures
        r == le32(bytes@, off as int),
{
    let _ = bytes.len();
    (read16(bytes, off) as u32) + (read16(bytes, off + 2) as u32) * 0x1_0000
}

fn read64(bytes: &Vec<u8>, off: usize) -> (r: u64)
    requires
        off + 8 <= bytes@.len(),
    ensures
        r == le64(bytes@, off as int),
{
    let _ = bytes.len();
    (read32(bytes, off) as u64) + (read32(bytes, off + 4) as u64) * 0x1_0000_0000
}

/// The program header that stands at `off` in the image `bytes`.
pub open spec fn program_header_at(bytes: Seq<u8>, off: int) -> ProgramHeader {
    ProgramHeader {
        seg_type: le32(bytes, off) as u32,
        flags: le32(bytes, off + 4) as u32,
        off: le64(bytes, off + 8) as u64,
        vaddr: le64(bytes, off + 16) as u64,
        paddr: le64(bytes, off + 24) as u64,
        filesz: le64(bytes, off + 32) as u64,
        memsz: le64(bytes, off + 40) as u64,
        align: le64(bytes, off + 48) as u64,
    }
}

/// The header that the image `bytes` begins with holds `h`.
pub open spec fn header_of(bytes: Seq<u8>, h: Header) -> bool {
    &&& h.magic == le32(bytes, 0)
    &&& h.bitsize == bytes[4]
    &&& h.endian == bytes[5]
    &&& h.ident_abi_version == bytes[6]
    &&& h.target_platform == bytes[7]
    &&& h.abi_version == bytes[8]
    &&& h.padding@ == bytes.subrange(9, 16)
    &&& h.obj_type == le16(bytes, 16)
    &&& h.machine == le16(bytes, 18)
    &&& h.version == le32(bytes, 20)
    &&& h.entry_addr == le64(bytes, 24)
    &&& h.phoff == le64(bytes, 32)
    &&& h.shoff == le64(bytes, 40)
    &&& h.flags == le32(bytes, 48)
    &&& h.ehsize == le16(bytes, 52)
    &&& h.phentsize == le16(bytes, 54)
    &&& h.phnum == le16(bytes, 56)
    &&& h.shentsize == le16(bytes, 58)
    &&& h.shnum == le16(bytes, 60)
    &&& h.shstrndx == le16(bytes, 62)
}

/// Reads the header of the image.
fn read_header(bytes: &Vec<u8>) -> (h: Header)
    requires
        bytes@.len() >= 64,
    ensures
        header_of(bytes@, h),
{
    let padding: [u8; 7] = [
        bytes[9],
        bytes[10],
        bytes[11],
        bytes[12],
        bytes[13],
        bytes[14],
        bytes[15],
    ];
    proof {
        assert(padding@ =~= bytes@.subrange(9, 16));
    }
    Header {
        magic: read32(bytes, 0),
        bitsize: bytes[4],
        endian: bytes[5],
        ident_abi_version: bytes[6],
        target_platform: bytes[7],
        abi_version: bytes[8],
        padding,
        obj_type: read16(bytes, 16),
        machine: read16(bytes, 18),
        version: read32(bytes, 20),
        entry_addr: read64(bytes, 24),
        phoff: read64(bytes, 32),
        shoff: read64(bytes, 40),
        flags: read32(bytes, 48),
        ehsize: read16(bytes, 52),
        phentsize: read16(bytes, 54),
        phnum: read16(bytes, 56),
        shentsize: read16(bytes, 58),
        shnum: read16(bytes, 60),
        shstrndx: read16(bytes, 62),
    }
}

/// Reads the program header at `off`.
fn read_program_header(bytes: &Vec<u8>, off: usize) -> (h: ProgramHeader)
    requires
        off + 56 <= bytes@.len(),
    ensures
        h == program_header_at(bytes@, off as int),
{
    let _ = bytes.len();
    ProgramHeader {
        seg_type: read32(bytes, off),
        flags: read32(bytes, off + 4),
        off: read64(bytes, off + 8),
        vaddr: read64(bytes, off + 16),
        paddr: read64(bytes, off + 24),
        filesz: read64(bytes, off + 32),
        memsz: read64(bytes, off + 40),
        align: read64(bytes, off + 48),
    }
}

/// The segment with the header `ph` is loaded into memory.
pub open spec fn loadable(ph: ProgramHeader) -> bool {
    ph.seg_type == PH_SEG_TYPE_LOAD && ph.memsz != 0
}

/// Program header number `k` of the image `bytes`.
pub open spec fn program_header(bytes: Seq<u8>, k: int) -> ProgramHeader {
    program_header_at(bytes, le64(bytes, 32) + k * 56)
}

/// The bytes of the segment with the header `ph`: as many bytes of the image
/// as the segment takes in memory, from the segment's offset on.
pub open spec fn segment_bytes(bytes: Seq<u8>, ph: ProgramHeader) -> Seq<u8> {
    bytes.subrange(ph.off as int, ph.off + ph.memsz)
}

/// The loadable segments among the first `n` program headers of the image
/// `bytes`, in the order of their headers.
#[verifier::opaque]
pub open spec fn segments(bytes: Seq<u8>, n: int) -> Seq<(ProgramHeader, Seq<u8>)>
    decreases n,
{
    if n <= 0 {
        Seq::empty()
    } else {
        let ph = program_header(bytes, n - 1);
        if loadable(ph) {
            segments(bytes, n - 1).push((ph, segment_bytes(bytes, ph)))
        } else {
            segments(bytes, n - 1)
        }
    }
}

/// The image holds all of its program headers and all bytes of its loadable
/// segments.
pub open spec fn complete(bytes: Seq<u8>) -> bool {
    &&& le64(bytes, 32) + le16(bytes, 56) * 56 <= bytes.len()
    &&& forall|k: int|
        0 <= k < le16(bytes, 56) && loadable(#[trigger] program_header(bytes, k))
            ==> program_header(bytes, k).off + program_header(bytes, k).memsz <= bytes.len()
}

/// What is wrong with the image `bytes`, if anything: the first of these
/// that applies. The image is shorter than a header; it does not begin with
/// the magic number; it is for another machine; it is not an executable; it
/// ends before its program headers or its segments do.
pub open spec fn image_error(bytes: Seq<u8>) -> Option<LoadErrors> {
    if bytes.len() < 64 {
        Some(LoadErrors::FileRead)
    } else if le32(bytes, 0) != MAGIC {
        Some(LoadErrors::Magic)
    } else if le16(bytes, 18) != MACHINE_RISCV {
        Some(LoadErrors::Machine)
    } else if le16(bytes, 16) != TYPE_EXEC {
        Some(LoadErrors::TypeExec)
    } else if !complete(bytes) {
        Some(LoadErrors::FileRead)
    } else {
        None
    }
}

/// A copy of the bytes of `[from, to)`.
fn copy_range(bytes: &Vec<u8>, from: usize, to: usize) -> (r: Vec<u8>)
    requires
        from <= to <= bytes@.len(),
    ensures
        r@ == bytes@.subrange(from as int, to as int),
{
    let mut out: Vec<u8> = Vec::new();
    let mut i: usize = from;
    while i < to
        invariant
            from <= i <= to,
            to <= bytes@.len(),
            out@ == bytes@.subrange(from as int, i as int),
        decreases to - i,
    {
        out.push(bytes[i]);
        proof {
            assert(out@ =~= bytes@.subrange(from as int, i + 1));
        }
        i = i + 1;
    }
    out
}

impl File {
    /// The loadable segments: each with its header and its bytes.
    pub open spec fn segments(&self) -> Seq<(ProgramHeader, Seq<u8>)> {
        Seq::new(
            self.programs@.len(),
            |i: int| (self.programs@[i].header, self.programs@[i].data@),
        )
    }

    /// Every segment is loadable, and holds as many bytes as it takes in
    /// memory.
    pub open spec fn wf(&self) -> bool {
        forall|i: int|
            0 <= i < self.programs@.len() ==> (#[trigger] self.programs@[i]).data@.len()
                == self.programs@[i].header.memsz && loadable(self.programs@[i].header)
    }

    /// Takes the image `bytes` apart. An image that is not an executable for
    /// this machine, or that is cut short, is refused.
    pub fn load(bytes: &Vec<u8>) -> (r: Result<File, LoadErrors>)
        ensures
            match r {
                Ok(file) => {
                    &&& image_error(bytes@) is None
                    &&& file.wf()
                    &&& header_of(bytes@, file.header)
                    &&& file.segments() == segments(bytes@, le16(bytes@, 56))
                },
                Err(e) => image_error(bytes@) == Some(e),
            },
    {
        let len = bytes.len();
        if len < HEADER_SIZE {
            return Err(LoadErrors::FileRead);
        }
        let header = read_header(bytes);
        if header.magic != MAGIC {
            return Err(LoadErrors::Magic);
        }
        if header.machine != MACHINE_RISCV {
            return Err(LoadErrors::Machine);
        }
        if header.obj_type != TYPE_EXEC {
            return Err(LoadErrors::TypeExec);
        }
        let phnum: usize = header.phnum as usize;
        if header.phoff > len as u64 || phnum * PROGRAM_HEADER_SIZE > len - header.phoff as usize {
            return Err(LoadErrors::FileRead);
        }
        let phoff: usize = header.phoff as usize;
        proof {
            reveal(segments);
        }
        let mut programs: Vec<Program> = Vec::new();
        let mut ret = File { header, programs };
        let mut i: usize = 0;
        while i < phnum
            invariant
                i <= phnum,
                len == bytes@.len(),
                len >= 64,
                le32(bytes@, 0) == MAGIC,
                le16(bytes@, 18) == MACHINE_RISCV,
                le16(bytes@, 16) == TYPE_EXEC,
                phnum == le16(bytes@, 56),
                phoff == le64(bytes@, 32),
                phoff + phnum * 56 <= len,
                ret.header == header,
                ret.wf(),
                ret.segments() == segments(bytes@, i as int),
                forall|k: int|
                    0 <= k < i && loadable(#[trigger] program_header(bytes@, k))
                        ==> program_header(bytes@, k).off + program_header(bytes@, k).memsz
                        <= len,
            decreases phnum - i,
        {
            proof {
                reveal(segments);
            }
            let ph = read_program_header(bytes, phoff + i * PROGRAM_HEADER_SIZE);
            if ph.seg_type == PH_SEG_TYPE_LOAD && ph.memsz != 0 {
                if ph.off > len as u64 || ph.memsz > len as u64 - ph.off {
                    proof {
                        assert(loadable(program_header(bytes@, i as int)));
                        assert(!complete(bytes@));
                    }
                    return Err(LoadErrors::FileRead);
                }
                let from: usize = ph.off as usize;
                let to: usize = from + ph.memsz as usize;
                let data = copy_range(bytes, from, to);
                let ghost before = ret.segments();
                ret.programs.push(Program { header: ph, data });
                proof {
                    assert(ret.segments() =~= before.push((ph, segment_bytes(bytes@, ph))));
                }
            }
            i = i + 1;
        }
        Ok(ret)
    }
}

/// A loadable segment with its bytes.
pub type Segment = (ProgramHeader, Seq<u8>);

/// The entry bits for a segment with the flags `flags`: the user bit, and
/// the permissions that the flags grant.
pub open spec fn segment_bits(flags: u32) -> u64 {
    (16 + if flags & PROG_EXECUTE != 0 {
        8int
    } else {
        0int
    } + if flags & PROG_READ != 0 {
        2int
    } else {
        0int
    } + if flags & PROG_WRITE != 0 {
        4int
    } else {
        0int
    }) as u64
}

/// The segment grants some access, and so is given memory.
pub open spec fn accessible(ph: ProgramHeader) -> bool {
    segment_bits(ph.flags) != 16
}

/// The segment ends at least two pages below the top of the address space.
pub open spec fn in_reach(ph: ProgramHeader) -> bool {
    ph.vaddr + ph.memsz + 8192 <= u64::MAX
}

/// Address of the first page that the segment touches.
pub open spec fn first_page(ph: ProgramHeader) -> int {
    ph.vaddr - ph.vaddr % 4096
}

/// Number of pages that the segment touches.
pub open spec fn page_count(ph: ProgramHeader) -> int {
    (ph.vaddr % 4096 + ph.memsz + 4095) / 4096
}

/// Number of pages that the accessible ones of the first `n` segments are
/// given.
pub open spec fn pages_before(segs: Seq<Segment>, n: int) -> int
    decreases n,
{
    if n <= 0 {
        0
    } else if accessible(segs[n - 1].0) {
        pages_before(segs, n - 1) + page_count(segs[n - 1].0)
    } else {
        pages_before(segs, n - 1)
    }
}

/// Every accessible segment lies in reach.
pub open spec fn all_in_reach(segs: Seq<Segment>) -> bool {
    forall|k: int| 0 <= k < segs.len() && accessible(segs[k].0) ==> in_reach(#[trigger] segs[k].0)
}

/// The mappings for a segment whose first page is given the page at
/// `paddr`: page by page, with the permissions of the segment.
pub open spec fn page_plan(ph: ProgramHeader, paddr: int) -> Seq<Mapping> {
    Seq::new(
        page_count(ph) as nat,
        |i: int|
            Mapping {
                vaddr: (first_page(ph) + i * 4096) as u64,
                paddr: (paddr + i * 4096) as u64,
                bits: segment_bits(ph.flags),
            },
    )
}

/// The mappings for the accessible ones of the first `n` segments, which
/// are given the pages from `program` on, one segment behind the other.
pub open spec fn segment_plan(segs: Seq<Segment>, program: int, n: int) -> Seq<Mapping>
    decreases n,
{
    if n <= 0 {
        Seq::empty()
    } else if accessible(segs[n - 1].0) {
        segment_plan(segs, program, n - 1) + page_plan(
            segs[n - 1].0,
            program + pages_before(segs, n - 1) * 4096,
        )
    } else {
        segment_plan(segs, program, n - 1)
    }
}

/// The mappings for the stack of a user process, whose pages stand at
/// `stack`: readable and writable for the user.
pub open spec fn stack_plan(stack: int) -> Seq<Mapping> {
    Seq::new(
        16,
        |i: int|
            Mapping {
                vaddr: (STACK_ADDR + i * 4096) as u64,
                paddr: (stack + i * 4096) as u64,
                bits: 22,
            },
    )
}

/// The memory after the bytes of the accessible ones of the first `n`
/// segments have been stored: each segment in the pages it is given, from
/// the offset `at` on, at the place in its first page that its address asks
/// for.
pub open spec fn with_segments(memory: Seq<u8>, segs: Seq<Segment>, at: int, n: int) -> Seq<u8>
    decreases n,
{
    if n <= 0 {
        memory
    } else if accessible(segs[n - 1].0) {
        written(
            with_segments(memory, segs, at, n - 1),
            at + pages_before(segs, n - 1) * 4096 + segs[n - 1].0.vaddr % 4096,
            segs[n - 1].1,
        )
    } else {
        with_segments(memory, segs, at, n - 1)
    }
}

/// The program break after the first `n` segments: the first address above
/// the highest page of an accessible segment, 0 if there is no such
/// segment.
pub open spec fn break_after(segs: Seq<Segment>, n: int) -> int
    decreases n,
{
    if n <= 0 {
        0
    } else if accessible(segs[n - 1].0) {
        let before = break_after(segs, n - 1);
        let top = first_page(segs[n - 1].0) + page_count(segs[n - 1].0) * 4096;
        if top > before {
            top
        } else {
            before
        }
    } else {
        break_after(segs, n - 1)
    }
}

/// The sizes in pages of what a user process is given, in the order of the
/// requests: the frame, the stack, the root of the address space, and the
/// program if it takes any page.
pub open spec fn user_process_sizes(program_pages: int) -> Seq<usize> {
    if program_pages > 0 {
        seq![1usize, 16usize, 1usize, program_pages as usize]
    } else {
        seq![1usize, 16usize, 1usize]
    }
}

/// Number of free pages that `load_proc` asks for before it begins: the
/// pages of the process, and two pages for tables for each page it maps.
pub open spec fn room_needed(program_pages: int) -> int {
    18 + program_pages + 2 * (program_pages + 16)
}

/// The image `bytes` can be loaded with the memory of `alloc`: its segments
/// lie in reach, `alloc` has the room that `load_proc` asks for, and the
/// pages of the process can be had.
pub open spec fn loadable_into(bytes: Seq<u8>, alloc: PageAllocator) -> bool {
    let segs = segments(bytes, le16(bytes, 56));
    let total = pages_before(segs, segs.len() as int);
    &&& all_in_reach(segs)
    &&& total <= usize::MAX
    &&& alloc.free_pages() >= room_needed(total)
    &&& requests_fit(alloc.pages(), user_process_sizes(total))
}

/// `p` is the user process `pid` as `load_proc` makes it from the segments
/// `segs` of an image with the entry point `entry`, with its frame, stack,
/// root and program at the addresses given.
pub open spec fn is_user_process(
    p: Process,
    pid: u16,
    entry: u64,
    segs: Seq<Segment>,
    frame_addr: u64,
    stack: u64,
    root: u64,
    program: u64,
) -> bool {
    let plan = segment_plan(segs, program as int, segs.len() as int) + stack_plan(stack as int);
    &&& p.pid == pid
    &&& p.frame_addr == frame_addr
    &&& p.stack == stack
    &&& p.program == program
    &&& p.root.wf()
    &&& p.root.addr() == root
    &&& forall|j2: int, j1: int, j0: int|
        #[trigger] p.root.slot(j2, j1, j0) == planned_leaf(plan, plan.len() as int, (j2, j1, j0))
    &&& p.state == ProcessState::Running
    &&& p.sleep_until == 0
    &&& p.brk == break_after(segs, segs.len() as int)
    &&& p.data.pages@ == Seq::<u64>::empty()
    &&& p.frame.pc == entry
    &&& p.frame.mode == CpuMode::User.spec_val()
    &&& p.frame.pid == pid
    &&& p.frame.satp == spec_build_satp(SatpMode::Sv39, pid as u64, root)
    &&& p.frame.hartid == 0
    &&& p.frame.qm == 1
    &&& p.frame.regs@ == Seq::new(
        32,
        |i: int|
            if i == 2 {
                (STACK_ADDR + 16 * 4096 - 4096) as u64
            } else {
                0u64
            },
    )
    &&& forall|i: int| 0 <= i < 32 ==> p.frame.fregs@[i] == 0
}

/// The entry bits for a segment with the flags `flags`.
fn bits_of(flags: u32) -> (bits: u64)
    ensures
        bits == segment_bits(flags),
        bits != 16 ==> bits & 0xe != 0,
        bits < 32,
{
    let mut bits: u64 = 16;
    if flags & PROG_EXECUTE != 0 {
        bits = bits + 8;
    }
    if flags & PROG_READ != 0 {
        bits = bits + 2;
    }
    if flags & PROG_WRITE != 0 {
        bits = bits + 4;
    }
    proof {
        assert(16 <= bits < 32 && bits != 16 && bits % 2 == 0 ==> bits & 0xe != 0)
            by (bit_vector);
    }
    bits
}

impl File {
    /// Number of pages that the accessible segments are given, or `None`
    /// where a segment does not lie in reach or the number does not fit.
    fn count_pages(&self) -> (r: Option<usize>)
        ensures
            r is Some <==> all_in_reach(self.segments()) && pages_before(
                self.segments(),
                self.segments().len() as int,
            ) <= usize::MAX,
            r is Some ==> r->0 == pages_before(self.segments(), self.segments().len() as int),
    {
        let n = self.programs.len();
        let ghost segs = self.segments();
        let mut total: usize = 0;
        let mut k: usize = 0;
        while k < n
            invariant
                k <= n,
                n == self.programs@.len(),
                segs == self.segments(),
                total == pages_before(segs, k as int),
                forall|i: int| 0 <= i < k && accessible(segs[i].0) ==> in_reach(#[trigger] segs[i].0),
            decreases n - k,
        {
            let ph = self.programs[k].header;
            if bits_of(ph.flags) != 16 {
                if ph.memsz > u64::MAX - 8192 || ph.vaddr > u64::MAX - 8192 - ph.memsz {
                    proof {
                        assert(accessible(segs[k as int].0) && !in_reach(segs[k as int].0));
                    }
                    return None;
                }
                let count: u64 = (ph.vaddr % 4096 + ph.memsz + 4095) / 4096;
                if count > (usize::MAX - total) as u64 {
                    proof {
                        lemma_pages_before_grows(segs, k + 1, n as int);
                    }
                    return None;
                }
                total = total + count as usize;
            }
            k = k + 1;
        }
        Some(total)
    }
}

/// Segments only add pages.
pub proof fn lemma_pages_before_grows(segs: Seq<Segment>, a: int, b: int)
    requires
        0 <= a <= b,
    ensures
        0 <= pages_before(segs, a) <= pages_before(segs, b),
    decreases b,
{
    if a < b {
        lemma_pages_before_grows(segs, a, b - 1);
    } else if a > 0 {
        lemma_pages_before_grows(segs, a - 1, a - 1);
    }
}

impl File {
    /// Stores the bytes of the accessible segments in the pages from
    /// `program` on.
    fn copy_segments(&self, alloc: &mut PageAllocator, program: u64)
        requires
            self.wf(),
            old(alloc).wf(),
            all_in_reach(self.segments()),
            old(alloc).start() <= program,
            program + pages_before(self.segments(), self.segments().len() as int) * 4096 <= old(
                alloc,
            ).end(),
        ensures
            final(alloc).wf(),
            final(alloc).start() == old(alloc).start(),
            final(alloc).pages() == old(alloc).pages(),
            final(alloc).memory() == with_segments(
                old(alloc).memory(),
                self.segments(),
                program - old(alloc).start(),
                self.segments().len() as int,
            ),
    {
        let n = self.programs.len();
        let ghost segs = self.segments();
        let ghost at = program - alloc.start();
        let mut base: u64 = program;
        let mut k: usize = 0;
        while k < n
            invariant
                k <= n,
                n == self.programs@.len(),
                segs == self.segments(),
                self.wf(),
                all_in_reach(segs),
                alloc.wf(),
                alloc.start() == old(alloc).start(),
                alloc.pages() == old(alloc).pages(),
                at == program - alloc.start(),
                alloc.start() <= program,
                program + pages_before(segs, n as int) * 4096 <= alloc.end(),
                base == program + pages_before(segs, k as int) * 4096,
                alloc.memory() == with_segments(old(alloc).memory(), segs, at, k as int),
            decreases n - k,
        {
            let ph = self.programs[k].header;
            proof {
                lemma_pages_before_grows(segs, k + 1, n as int);
                assert(segs[k as int].0 == ph);
                assert(segs[k as int].1 == self.programs@[k as int].data@);
            }
            if bits_of(ph.flags) != 16 {
                assert(in_reach(segs[k as int].0));
                let shift: u64 = ph.vaddr % 4096;
                let count: u64 = (shift + ph.memsz + 4095) / 4096;
                proof {
                    let before = pages_before(segs, k as int);
                    let all = pages_before(segs, n as int);
                    lemma_pages_before_grows(segs, k as int, n as int);
                    assert(before >= 0);
                    assert(count * 4096 >= shift + ph.memsz);
                    assert(pages_before(segs, k + 1) == before + count);
                    assert((before + count) * 4096 <= all * 4096) by (nonlinear_arith)
                        requires
                            before + count <= all,
                    ;
                    assert((before + count) * 4096 == before * 4096 + count * 4096)
                        by (nonlinear_arith);
                    assert(self.programs@[k as int].data@.len() == ph.memsz);
                }
                let ok = alloc.store(base + shift, &self.programs[k].data);
                assert(ok);
                base = base + count * 4096;
            }
            k = k + 1;
        }
    }

    /// The mappings for the accessible segments, which stand in the pages
    /// from `program` on, and for the stack at `stack`.
    fn plan(&self, program: u64, stack: u64) -> (plan: Vec<Mapping>)
        requires
            all_in_reach(self.segments()),
            program + pages_before(self.segments(), self.segments().len() as int) * 4096
                <= u64::MAX,
            pages_before(self.segments(), self.segments().len() as int) + 16 <= usize::MAX,
            stack + 16 * 4096 <= u64::MAX,
        ensures
            plan@ == segment_plan(self.segments(), program as int, self.segments().len() as int)
                + stack_plan(stack as int),
            plan@.len() == pages_before(self.segments(), self.segments().len() as int) + 16,
            forall|k: int| 0 <= k < plan@.len() ==> (#[trigger] plan@[k]).bits & 0xe != 0,
    {
        let n = self.programs.len();
        let ghost segs = self.segments();
        let mut plan: Vec<Mapping> = Vec::new();
        let mut base: u64 = program;
        let mut k: usize = 0;
        while k < n
            invariant
                k <= n,
                n == self.programs@.len(),
                segs == self.segments(),
                all_in_reach(segs),
                program + pages_before(segs, n as int) * 4096 <= u64::MAX,
                pages_before(segs, n as int) + 16 <= usize::MAX,
                base == program + pages_before(segs, k as int) * 4096,
                plan@ == segment_plan(segs, program as int, k as int),
                plan@.len() == pages_before(segs, k as int),
                forall|i: int| 0 <= i < plan@.len() ==> (#[trigger] plan@[i]).bits & 0xe != 0,
            decreases n - k,
        {
            let ph = self.programs[k].header;
            proof {
                lemma_pages_before_grows(segs, k + 1, n as int);
                assert(segs[k as int].0 == ph);
            }
            let bits = bits_of(ph.flags);
            if bits != 16 {
                assert(in_reach(segs[k as int].0));
                let first: u64 = ph.vaddr - ph.vaddr % 4096;
                let count: u64 = (ph.vaddr % 4096 + ph.memsz + 4095) / 4096;
                let ghost before = plan@;
                let mut i: u64 = 0;
                while i < count
                    invariant
                        i <= count,
                        count == page_count(ph),
                        first == first_page(ph),
                        bits == segment_bits(ph.flags),
                        bits & 0xe != 0,
                        in_reach(ph),
                        base + count * 4096 <= u64::MAX,
                        before.len() + count <= usize::MAX,
                        plan@ == before + page_plan(ph, base as int).take(i as int),
                        forall|j: int|
                            0 <= j < before.len() ==> (#[trigger] before[j]).bits & 0xe != 0,
                    decreases count - i,
                {
                    plan.push(Mapping { vaddr: first + i * 4096, paddr: base + i * 4096, bits });
                    proof {
                        let pp = page_plan(ph, base as int);
                        assert(pp.take(i + 1) =~= pp.take(i as int).push(pp[i as int]));
                        assert(plan@ =~= before + pp.take(i + 1));
                    }
                    i = i + 1;
                }
                proof {
                    let pp = page_plan(ph, base as int);
                    assert(pp.take(count as int) =~= pp);
                }
                base = base + count * 4096;
            }
            k = k + 1;
        }
        let ghost before = plan@;
        let mut i: u64 = 0;
        while i < 16
            invariant
                i <= 16,
                stack + 16 * 4096 <= u64::MAX,
                before.len() + 16 <= usize::MAX,
                plan@ == before + stack_plan(stack as int).take(i as int),
                forall|j: int| 0 <= j < before.len() ==> (#[trigger] before[j]).bits & 0xe != 0,
            decreases 16 - i,
        {
            plan.push(Mapping { vaddr: STACK_ADDR + i * 4096, paddr: stack + i * 4096, bits: 22 });
            proof {
                let sp = stack_plan(stack as int);
                assert(sp.take(i + 1) =~= sp.take(i as int).push(sp[i as int]));
                assert(plan@ =~= before + sp.take(i + 1));
            }
            i = i + 1;
        }
        proof {
            let sp = stack_plan(stack as int);
            assert(sp.take(16) =~= sp);
            crate::mmu::lemma_permissions();
        }
        plan
    }

    /// The program break of the image.
    fn initial_break(&self) -> (brk: u64)
        requires
            all_in_reach(self.segments()),
        ensures
            brk == break_after(self.segments(), self.segments().len() as int),
    {
        let n = self.programs.len();
        let ghost segs = self.segments();
        let mut brk: u64 = 0;
        let mut k: usize = 0;
        while k < n
            invariant
                k <= n,
                n == self.programs@.len(),
                segs == self.segments(),
                all_in_reach(segs),
                brk == break_after(segs, k as int),
            decreases n - k,
        {
            let ph = self.programs[k].header;
            proof {
                assert(segs[k as int].0 == ph);
            }
            if bits_of(ph.flags) != 16 {
                assert(in_reach(segs[k as int].0));
                let count: u64 = (ph.vaddr % 4096 + ph.memsz + 4095) / 4096;
                let top: u64 = ph.vaddr - ph.vaddr % 4096 + count * 4096;
                if top > brk {
                    brk = top;
                }
            }
            k = k + 1;
        }
        brk
    }
}

/// What `load_proc` leaves in `after` when it has made the process `p` from
/// the segments `segs`: the pages of the process are taken and cleared, the
/// segments are stored in the pages of the program, and the tables of the
/// address space stand in pages that were taken one by one after that.
pub open spec fn loaded_into(
    before: PageAllocator,
    after: PageAllocator,
    segs: Seq<Segment>,
    p: Process,
) -> bool {
    let total = pages_before(segs, segs.len() as int);
    let sizes = user_process_sizes(total);
    let pages = after_requests(before.pages(), sizes);
    let memory = with_segments(
        cleared(before.pages(), before.memory(), sizes),
        segs,
        p.program - before.start(),
        segs.len() as int,
    );
    let plan = segment_plan(segs, p.program as int, segs.len() as int) + stack_plan(
        p.stack as int,
    );
    exists|tables: nat|
        {
            &&& #[trigger] built_from_empty(
                p.root,
                p.root.addr(),
                before.start(),
                pages,
                plan,
                tables,
            )
            &&& after.pages() == crate::page::pages_after(pages, tables)
            &&& after.memory() == crate::page::memory_after(pages, memory, tables)
        }
}

/// The sizes of the requests for a user process whose program takes
/// `total` pages.
fn sizes_for(total: usize) -> (sizes: Vec<usize>)
    ensures
        sizes@ == user_process_sizes(total as int),
        sum_sizes(sizes@) == 18 + total,
        forall|k: int| 0 <= k < sizes@.len() ==> sizes@[k] >= 1,
{
    let mut sizes: Vec<usize> = Vec::new();
    sizes.push(1);
    sizes.push(STACK_PAGES);
    sizes.push(1);
    if total > 0 {
        sizes.push(total);
    }
    proof {
        assert(sizes@ =~= user_process_sizes(total as int));
        reveal_with_fuel(sum_sizes, 5);
        if total > 0 {
            assert(sizes@.drop_last() =~= seq![1usize, 16usize, 1usize]);
            assert(sizes@.drop_last().drop_last() =~= seq![1usize, 16usize]);
            assert(sizes@.drop_last().drop_last().drop_last() =~= seq![1usize]);
        } else {
            assert(sizes@.drop_last() =~= seq![1usize, 16usize]);
            assert(sizes@.drop_last().drop_last() =~= seq![1usize]);
        }
    }
    sizes
}

/// `p` is the process `pid` that `load_proc` makes from the image `bytes`
/// with the memory of `before`, which it leaves as `after`.
pub open spec fn made_process(
    bytes: Seq<u8>,
    before: PageAllocator,
    after: PageAllocator,
    pid: u16,
    p: Process,
) -> bool {
    let segs = segments(bytes, le16(bytes, 56));
    let total = pages_before(segs, segs.len() as int);
    let sizes = user_process_sizes(total);
    let pre0 = before.pages();
    &&& image_error(bytes) is None
    &&& loadable_into(bytes, before)
    &&& p.wf()
    &&& is_user_process(
        p,
        pid,
        le64(bytes, 24) as u64,
        segs,
        (before.start() + request_index(pre0, sizes, 0) * 4096) as u64,
        (before.start() + request_index(pre0, sizes, 1) * 4096) as u64,
        (before.start() + request_index(pre0, sizes, 2) * 4096) as u64,
        if total > 0 {
            (before.start() + request_index(pre0, sizes, 3) * 4096) as u64
        } else {
            0u64
        },
    )
    &&& loaded_into(before, after, segs, p)
}

/// The image `bytes` is well formed, its segments lie in reach and take
/// `total` pages, and `alloc` has the room that `load_proc` asks for.
pub open spec fn accepted(bytes: Seq<u8>, alloc: PageAllocator) -> bool {
    let segs = segments(bytes, le16(bytes, 56));
    let total = pages_before(segs, segs.len() as int);
    &&& all_in_reach(segs)
    &&& total <= usize::MAX
    &&& alloc.free_pages() >= room_needed(total)
}

impl File {
    /// Takes the image apart and sees whether `alloc` has room for it.
    fn accept(bytes: &Vec<u8>, alloc: &PageAllocator) -> (r: Result<(File, usize), LoadErrors>)
        requires
            alloc.wf(),
        ensures
            match r {
                Err(e) => match image_error(bytes@) {
                    Some(x) => e == x,
                    None => e == LoadErrors::Memory && !accepted(bytes@, *alloc),
                },
                Ok((file, total)) => {
                    &&& image_error(bytes@) is None
                    &&& accepted(bytes@, *alloc)
                    &&& file.wf()
                    &&& header_of(bytes@, file.header)
                    &&& file.segments() == segments(bytes@, le16(bytes@, 56))
                    &&& total == pages_before(file.segments(), file.segments().len() as int)
                    &&& 3 * total + 50 <= usize::MAX
                },
            },
    {
        let file = match File::load(bytes) {
            Ok(file) => file,
            Err(e) => {
                return Err(e);
            },
        };
        let total = match file.count_pages() {
            Some(total) => total,
            None => {
                return Err(LoadErrors::Memory);
            },
        };
        let _ = alloc.len();
        proof {
            crate::page::lemma_taken_count_bound(alloc.pages(), alloc.num_pages());
        }
        if total > (usize::MAX - 50) / 3 {
            return Err(LoadErrors::Memory);
        }
        if alloc.count_free() < 3 * total + 50 {
            return Err(LoadErrors::Memory);
        }
        Ok((file, total))
    }

    /// Makes the process `pid` of the image, in the pages that were taken for
    /// it: stores the segments, builds the address space and sets the frame.
    fn install(
        &self,
        alloc: &mut PageAllocator,
        pid: u16,
        frame_addr: u64,
        stack: u64,
        root_addr: u64,
        program: u64,
    ) -> (p: Process)
        requires
            self.wf(),
            all_in_reach(self.segments()),
            old(alloc).wf(),
            crate::mmu::table_addr_ok(root_addr),
            old(alloc).free_pages() >= 2 * (pages_before(
                self.segments(),
                self.segments().len() as int,
            ) + 16),
            pages_before(self.segments(), self.segments().len() as int) + 16 <= usize::MAX,
            stack + 16 * 4096 <= u64::MAX,
            pages_before(self.segments(), self.segments().len() as int) > 0 ==> old(alloc).start()
                <= program && program + pages_before(
                self.segments(),
                self.segments().len() as int,
            ) * 4096 <= old(alloc).end(),
            pages_before(self.segments(), self.segments().len() as int) == 0 ==> program == 0,
        ensures
            final(alloc).wf(),
            final(alloc).start() == old(alloc).start(),
            final(alloc).num_pages() == old(alloc).num_pages(),
            p.wf(),
            is_user_process(
                p,
                pid,
                self.header.entry_addr,
                self.segments(),
                frame_addr,
                stack,
                root_addr,
                program,
            ),
            exists|tables: nat|
                {
                    &&& #[trigger] built_from_empty(
                        p.root,
                        root_addr,
                        old(alloc).start(),
                        old(alloc).pages(),
                        segment_plan(
                            self.segments(),
                            program as int,
                            self.segments().len() as int,
                        ) + stack_plan(stack as int),
                        tables,
                    )
                    &&& final(alloc).pages() == crate::page::pages_after(
                        old(alloc).pages(),
                        tables,
                    )
                    &&& final(alloc).memory() == crate::page::memory_after(
                        old(alloc).pages(),
                        with_segments(
                            old(alloc).memory(),
                            self.segments(),
                            program - old(alloc).start(),
                            self.segments().len() as int,
                        ),
                        tables,
                    )
                },
    {
        let ghost segs = self.segments();
        let ghost total = pages_before(segs, segs.len() as int);
        proof {
            lemma_pages_before_grows(segs, 0, segs.len() as int);
        }
        if program != 0 {
            assert(total > 0);
            self.copy_segments(alloc, program);
        } else {
            proof {
                assert forall|k: int| 0 <= k < segs.len() implies (#[trigger] segs[k]).0.memsz
                    > 0 by {
                    assert(loadable(self.programs@[k].header));
                }
                lemma_no_pages(segs, segs.len() as int);
                lemma_with_segments_at(
                    segs,
                    alloc.memory(),
                    program - alloc.start(),
                    segs.len() as int,
                );
            }
        }
        let ghost stored = *alloc;
        let plan = self.plan(program, stack);
        let mut root = Table::new(root_addr);
        let ghost empty = root;
        map_all(&mut root, alloc, &plan);
        let brk = self.initial_break();
        let mut frame = TrapFrame::new();
        frame.pc = self.header.entry_addr;
        frame.regs[gp(Registers::Sp)] = STACK_ADDR + (STACK_PAGES as u64) * 4096 - 0x1000;
        frame.mode = CpuMode::User.val();
        frame.pid = pid as u64;
        frame.satp = build_satp(SatpMode::Sv39, pid as u64, root_addr);
        let p = Process {
            frame_addr,
            frame,
            stack,
            pid,
            root,
            state: ProcessState::Running,
            data: ProcessData::new(),
            sleep_until: 0,
            program,
            brk,
        };
        proof {
            assert(p.frame.regs@ =~= Seq::new(
                32,
                |i: int|
                    if i == 2 {
                        (STACK_ADDR + 16 * 4096 - 4096) as u64
                    } else {
                        0u64
                    },
            ));
            empty.lemma_structure();
            assert forall|j2: int, j1: int, j0: int| #[trigger]
                p.root.slot(j2, j1, j0) == planned_leaf(
                    plan@,
                    plan@.len() as int,
                    (j2, j1, j0),
                ) by {
                assert(empty.slot(j2, j1, j0) is None);
            }
            let tables = tables_for(empty, plan@, plan@.len() as int);
            assert(plan_built(empty, p.root, stored, plan@, plan@.len() as int));
            assert(built_from_empty(
                p.root,
                root_addr,
                old(alloc).start(),
                old(alloc).pages(),
                plan@,
                tables,
            ));
            assert(alloc.pages() == crate::page::pages_after(old(alloc).pages(), tables));
        }
        p
    }

    /// Makes the process `pid` from the image `bytes`. The image is checked
    /// as `load` checks it. Its accessible segments are copied into pages of
    /// their own and mapped at their addresses for the user, the stack is
    /// mapped at `STACK_ADDR`, and the frame starts at the entry point in user
    /// mode, in the address space of the process. Where an image is refused,
    /// or `alloc` lacks the room, nothing is changed.
    pub fn load_proc(bytes: &Vec<u8>, alloc: &mut PageAllocator, pid: u16) -> (r: Result<
        Process,
        LoadErrors,
    >)
        requires
            old(alloc).wf(),
        ensures
            final(alloc).wf(),
            final(alloc).start() == old(alloc).start(),
            final(alloc).num_pages() == old(alloc).num_pages(),
            match r {
                Err(e) => {
                    &&& final(alloc).pages() == old(alloc).pages()
                    &&& final(alloc).memory() == old(alloc).memory()
                    &&& match image_error(bytes@) {
                        Some(x) => e == x,
                        None => e == LoadErrors::Memory && !loadable_into(bytes@, *old(alloc)),
                    }
                },
                Ok(p) => made_process(bytes@, *old(alloc), *final(alloc), pid, p),
            },
    {
        let (file, total) = match File::accept(bytes, alloc) {
            Ok(pair) => pair,
            Err(e) => {
                return Err(e);
            },
        };
        let sizes = sizes_for(total);
        let addrs = match alloc.reserve(&sizes) {
            Some(addrs) => addrs,
            None => {
                return Err(LoadErrors::Memory);
            },
        };
        let program = if total > 0 {
            addrs[3]
        } else {
            0
        };
        let p = file.install(alloc, pid, addrs[0], addrs[1], addrs[2], program);
        Ok(p)
    }
}

/// Where the segments take no page, none of them is accessible.
pub proof fn lemma_no_pages(segs: Seq<Segment>, n: int)
    requires
        0 <= n <= segs.len(),
        pages_before(segs, segs.len() as int) == 0,
        forall|k: int| 0 <= k < segs.len() ==> (#[trigger] segs[k]).0.memsz > 0,
    ensures
        pages_before(segs, n) == 0,
        forall|k: int| 0 <= k < n ==> !accessible(#[trigger] segs[k].0),
{
    lemma_pages_before_grows(segs, n, segs.len() as int);
    assert forall|k: int| 0 <= k < n implies !accessible(#[trigger] segs[k].0) by {
        if accessible(segs[k].0) {
            lemma_pages_before_grows(segs, k, k);
            lemma_pages_before_grows(segs, k + 1, segs.len() as int);
            assert(segs[k].0.memsz > 0);
            assert(page_count(segs[k].0) >= 1);
            assert(pages_before(segs, k + 1) == pages_before(segs, k) + page_count(segs[k].0));
        }
    }
}

/// Where no segment is accessible, storing the segments changes nothing.
pub proof fn lemma_with_segments_at(segs: Seq<Segment>, memory: Seq<u8>, at: int, n: int)
    requires
        0 <= n <= segs.len(),
        forall|k: int| 0 <= k < n ==> !accessible(#[trigger] segs[k].0),
    ensures
        with_segments(memory, segs, at, n) == memory,
    decreases n,
{
    if n > 0 {
        lemma_with_segments_at(segs, memory, at, n - 1);
    }
}

} // verus!
