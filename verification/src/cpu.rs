//! Processor state as the kernel keeps it: the register frame of a process,
//! the names of the registers, privilege modes and translation modes, and the
//! word that selects an address space.

use crate::page::{copied, PageAllocator};
use vstd::prelude::*;

verus! {

/// Ticks of the machine timer per second.
pub const FREQ: u64 = 10_000_000;

/// Ticks between two preemptions.
pub const CONTEXT_SWITCH_TIME: u64 = 20_000;

/// Translation mode of the memory management unit.
#[derive(Clone, Copy, Debug, PartialEq, Eq, Structural)]
pub enum SatpMode {
    /// No translation and no protection.
    Off,
    /// 39-bit virtual addresses, three levels.
    Sv39,
    /// 48-bit virtual addresses.
    Sv48,
}

impl SatpMode {
    pub open spec fn spec_val(self) -> u64 {
        match self {
            SatpMode::Off => 0,
            SatpMode::Sv39 => 8,
            SatpMode::Sv48 => 9,
        }
    }

    /// The mode as it stands in the highest four bits of the selector.
    pub fn val(self) -> (r: u64)
        ensures
            r == self.spec_val(),
    {
        match self {
            SatpMode::Off => 0,
            SatpMode::Sv39 => 8,
            SatpMode::Sv48 => 9,
        }
    }
}

/// Privilege mode in which a frame is resumed.
#[derive(Clone, Copy, Debug, PartialEq, Eq, Structural)]
pub enum CpuMode {
    User,
    Supervisor,
    Machine,
}

impl CpuMode {
    pub open spec fn spec_val(self) -> u64 {
        match self {
            CpuMode::User => 0,
            CpuMode::Supervisor => 1,
            CpuMode::Machine => 3,
        }
    }

    /// The mode as the frame holds it.
    pub fn val(self) -> (r: u64)
        ensures
            r == self.spec_val(),
    {
        match self {
            CpuMode::User => 0,
            CpuMode::Supervisor => 1,
            CpuMode::Machine => 3,
        }
    }
}

/// The general-purpose registers by name, in the order of their numbers.
#[derive(Clone, Copy, Debug, PartialEq, Eq, Structural)]
pub enum Registers {
    Zero,
    Ra,
    Sp,
    Gp,
    Tp,
    T0,
    T1,
    T2,
    S0,
    S1,
    A0,
    A1,
    A2,
    A3,
    A4,
    A5,
    A6,
    A7,
    S2,
    S3,
    S4,
    S5,
    S6,
    S7,
    S8,
    S9,
    S10,
    S11,
    T3,
    T4,
    T5,
    T6,
}

impl Registers {
    /// Number of the register.
    pub open spec fn index(self) -> int {
        match self {
            Registers::Zero => 0,
            Registers::Ra => 1,
            Registers::Sp => 2,
            Registers::Gp => 3,
            Registers::Tp => 4,
            Registers::T0 => 5,
            Registers::T1 => 6,
            Registers::T2 => 7,
            Registers::S0 => 8,
            Registers::S1 => 9,
            Registers::A0 => 10,
            Registers::A1 => 11,
            Registers::A2 => 12,
            Registers::A3 => 13,
            Registers::A4 => 14,
            Registers::A5 => 15,
            Registers::A6 => 16,
            Registers::A7 => 17,
            Registers::S2 => 18,
            Registers::S3 => 19,
            Registers::S4 => 20,
            Registers::S5 => 21,
            Registers::S6 => 22,
            Registers::S7 => 23,
            Registers::S8 => 24,
            Registers::S9 => 25,
            Registers::S10 => 26,
            Registers::S11 => 27,
            Registers::T3 => 28,
            Registers::T4 => 29,
            Registers::T5 => 30,
            Registers::T6 => 31,
        }
    }
}

/// Number of the general-purpose register `r`, as an index into a frame.
pub fn gp(r: Registers) -> (i: usize)
    ensures
        i == r.index(),
        i < 32,
{
    match r {
        Registers::Zero => 0,
        Registers::Ra => 1,
        Registers::Sp => 2,
        Registers::Gp => 3,
        Registers::Tp => 4,
        Registers::T0 => 5,
        Registers::T1 => 6,
        Registers::T2 => 7,
        Registers::S0 => 8,
        Registers::S1 => 9,
        Registers::A0 => 10,
        Registers::A1 => 11,
        Registers::A2 => 12,
        Registers::A3 => 13,
        Registers::A4 => 14,
        Registers::A5 => 15,
        Registers::A6 => 16,
        Registers::A7 => 17,
        Registers::S2 => 18,
        Registers::S3 => 19,
        Registers::S4 => 20,
        Registers::S5 => 21,
        Registers::S6 => 22,
        Registers::S7 => 23,
        Registers::S8 => 24,
        Registers::S9 => 25,
        Registers::S10 => 26,
        Registers::S11 => 27,
        Registers::T3 => 28,
        Registers::T4 => 29,
        Registers::T5 => 30,
        Registers::T6 => 31,
    }
}

/// The floating-point registers by name, in the order of their numbers.
#[derive(Clone, Copy, Debug, PartialEq, Eq, Structural)]
pub enum FRegisters {
    Ft0,
    Ft1,
    Ft2,
    Ft3,
    Ft4,
    Ft5,
    Ft6,
    Ft7,
    Fs0,
    Fs1,
    Fa0,
    Fa1,
    Fa2,
    Fa3,
    Fa4,
    Fa5,
    Fa6,
    Fa7,
    Fs2,
    Fs3,
    Fs4,
    Fs5,
    Fs6,
    Fs7,
    Fs8,
    Fs9,
    Fs10,
    Fs11,
    Ft8,
    Ft9,
    Ft10,
    Ft11,
}

/// The saved state of a process: what the trap entry stores and the switch
/// into the process loads.
#[derive(Clone, Copy, Debug)]
pub struct TrapFrame {
    /// General-purpose registers.
    pub regs: [u64; 32],
    /// Floating-point registers.
    pub fregs: [u64; 32],
    /// Address-space selector.
    pub satp: u64,
    /// Program counter.
    pub pc: u64,
    /// Hardware thread that runs the frame.
    pub hartid: u64,
    /// Number of time slices the frame is given at a time.
    pub qm: u64,
    /// Identifier of the owning process.
    pub pid: u64,
    /// Privilege mode to resume in.
    pub mode: u64,
}

/// What a register frame holds.
pub struct FrameView {
    pub regs: Seq<u64>,
    pub fregs: Seq<u64>,
    pub satp: u64,
    pub pc: u64,
    pub hartid: u64,
    pub qm: u64,
    pub pid: u64,
    pub mode: u64,
}

impl View for TrapFrame {
    type V = FrameView;

    open spec fn view(&self) -> FrameView {
        FrameView {
            regs: self.regs@,
            fregs: self.fregs@,
            satp: self.satp,
            pc: self.pc,
            hartid: self.hartid,
            qm: self.qm,
            pid: self.pid,
            mode: self.mode,
        }
    }
}

/// The selector `satp` turns address translation on.
pub open spec fn translation_on(satp: u64) -> bool {
    satp >> 60 != 0
}

impl TrapFrame {
    /// The frame of a process that has not run: everything zero, one time
    /// slice.
    pub fn new() -> (f: TrapFrame)
        ensures
            f.satp == 0,
            f.pc == 0,
            f.hartid == 0,
            f.qm == 1,
            f.pid == 0,
            f.mode == 0,
            forall|i: int| 0 <= i < 32 ==> f.regs@[i] == 0 && f.fregs@[i] == 0,
    {
        TrapFrame {
            regs: [0u64; 32],
            fregs: [0u64; 32],
            satp: 0,
            pc: 0,
            hartid: 0,
            qm: 1,
            pid: 0,
            mode: 0,
        }
    }

    /// A frame with every field zero.
    pub fn zero() -> (f: TrapFrame)
        ensures
            f.satp == 0,
            f.pc == 0,
            f.hartid == 0,
            f.qm == 0,
            f.pid == 0,
            f.mode == 0,
            forall|i: int| 0 <= i < 32 ==> f.regs@[i] == 0 && f.fregs@[i] == 0,
    {
        TrapFrame {
            regs: [0u64; 32],
            fregs: [0u64; 32],
            satp: 0,
            pc: 0,
            hartid: 0,
            qm: 0,
            pid: 0,
            mode: 0,
        }
    }
}

/// The low eight bits of a register.
pub open spec fn spec_low8(x: u64) -> u8 {
    (x % 0x100) as u8
}

/// The low sixteen bits of a register.
pub open spec fn spec_low16(x: u64) -> u16 {
    (x % 0x1_0000) as u16
}

/// The low 32 bits of a register.
pub open spec fn spec_low32(x: u64) -> u32 {
    (x % 0x1_0000_0000) as u32
}

pub fn low8(x: u64) -> (r: u8)
    ensures
        r == spec_low8(x),
{
    (x % 0x100) as u8
}

pub fn low16(x: u64) -> (r: u16)
    ensures
        r == spec_low16(x),
{
    (x % 0x1_0000) as u16
}

pub fn low32(x: u64) -> (r: u32)
    ensures
        r == spec_low32(x),
{
    (x % 0x1_0000_0000) as u32
}

/// A frame of the kernel itself, which keeps the stack for its traps in
/// place of a program counter.
#[derive(Clone, Copy, Debug)]
pub struct KernelTrapFrame {
    pub regs: [u64; 32],
    pub fregs: [u64; 32],
    pub satp: u64,
    pub trap_stack: u64,
    pub hartid: u64,
}

impl KernelTrapFrame {
    /// A frame with every field zero.
    pub fn zero() -> (f: KernelTrapFrame)
        ensures
            f.satp == 0,
            f.trap_stack == 0,
            f.hartid == 0,
            forall|i: int| 0 <= i < 32 ==> f.regs@[i] == 0 && f.fregs@[i] == 0,
    {
        KernelTrapFrame { regs: [0u64; 32], fregs: [0u64; 32], satp: 0, trap_stack: 0, hartid: 0 }
    }
}

/// Copies `bytes` bytes from `src` to `dest` in the memory of `alloc`; see
/// `PageAllocator::copy`.
pub fn memcpy(alloc: &mut PageAllocator, dest: u64, src: u64, bytes: u64) -> (ok: bool)
    requires
        old(alloc).wf(),
    ensures
        final(alloc).wf(),
        final(alloc).start() == old(alloc).start(),
        final(alloc).pages() == old(alloc).pages(),
        ok == (old(alloc).start() <= dest && dest + bytes <= old(alloc).end() && old(
            alloc,
        ).start() <= src && src + bytes <= old(alloc).end()),
        ok ==> final(alloc).memory() == copied(
            old(alloc).memory(),
            dest - old(alloc).start(),
            src - old(alloc).start(),
            bytes as int,
        ),
        !ok ==> final(alloc).memory() == old(alloc).memory(),
{
    alloc.copy(dest, src, bytes)
}

/// The selector word for translation mode `mode`, address-space identifier
/// `asid` and root table at `addr`: the mode in bits 60 to 63, the low 16
/// bits of `asid` from bit 44 on, and below them the low 40 bits of the
/// root's page number.
pub open spec fn spec_build_satp(mode: SatpMode, asid: u64, addr: u64) -> u64 {
    (mode.spec_val() << 60) | ((asid & 0xffff) << 44) | ((addr >> 12) & 0xff_ffff_ffff)
}

pub fn build_satp(mode: SatpMode, asid: u64, addr: u64) -> (satp: u64)
    ensures
        satp == spec_build_satp(mode, asid, addr),
        satp >> 60 == mode.spec_val(),
        (satp >> 44) & 0xffff == asid & 0xffff,
        satp & 0xfff_ffff_ffff == (addr >> 12) & 0xff_ffff_ffff,
{
    let m: u64 = mode.val();
    let satp: u64 = (m << 60) | ((asid & 0xffff) << 44) | ((addr >> 12) & 0xff_ffff_ffff);
    proof {
        assert(m < 16 ==> satp >> 60 == m && (satp >> 44) & 0xffff == asid & 0xffff && satp
            & 0xfff_ffff_ffff == (addr >> 12) & 0xff_ffff_ffff) by (bit_vector)
            requires
                satp == (m << 60) | ((asid & 0xffff) << 44) | ((addr >> 12) & 0xff_ffff_ffff),
        ;
    }
    satp
}

} // verus!
