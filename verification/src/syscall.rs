//! System calls.
//!
//! A process asks for a service by loading the number of the call into
//! register `a7`, its arguments into `a0` and the registers that follow, and
//! trapping into the kernel. `do_syscall` decodes the call from the frame of
//! the process, makes the state transitions that belong to it, and says in its
//! result what is left to do outside the kernel core: printing, device
//! traffic, a look into the file system.

use crate::cpu::{
    gp, low16, low32, low8, spec_low16, spec_low32, spec_low8, FrameView, Registers,
};
use crate::page::PageAllocator;
use crate::console::Console;
use crate::elf::{image_error, loadable_into, made_process, File, LoadErrors};
use crate::gpu::Device;
use crate::input::Event;
use crate::mmu::{plan_built, tables_for, Mapping};
use std::collections::VecDeque;
use crate::process::{
    delete_process, frame_index, has_frame, set_sleeping, set_waiting, wake_time, FileDescriptor,
    Process, ProcessState, ProcessTable,
};
use vstd::prelude::*;

verus! {

pub const SYS_YIELD: u64 = 1;

pub const SYS_PUTCHAR: u64 = 2;

pub const SYS_DUMP: u64 = 8;

pub const SYS_SLEEP: u64 = 10;

pub const SYS_EXECV: u64 = 11;

pub const SYS_GETCWD: u64 = 17;

pub const SYS_FACCESSAT: u64 = 48;

pub const SYS_CLOSE: u64 = 57;

pub const SYS_READ: u64 = 63;

pub const SYS_WRITE: u64 = 64;

pub const SYS_WRITEV: u64 = 66;

pub const SYS_FSTAT: u64 = 80;

pub const SYS_EXIT: u64 = 93;

pub const SYS_EXIT_GROUP: u64 = 94;

pub const SYS_GETPID: u64 = 172;

pub const SYS_BLOCK_READ: u64 = 180;

pub const SYS_BRK: u64 = 214;

pub const SYS_GET_FRAMEBUFFER: u64 = 1000;

pub const SYS_INVALIDATE_RECT: u64 = 1001;

pub const SYS_KEY_EVENTS: u64 = 1002;

pub const SYS_ABS_EVENTS: u64 = 1004;

pub const SYS_OPEN: u64 = 1024;

pub const SYS_TIME: u64 = 1062;

/// Number of bytes of a path that a call to open looks at.
pub const PATH_MAX: usize = 256;

/// What a failed call leaves in the return register.
pub const FAILED: u64 = 0xffff_ffff_ffff_ffff;

/// A system call as a process issues it: the number of the call for `a7` and
/// the arguments for `a0` to `a5`.
#[derive(Clone, Copy, Debug, PartialEq, Eq, Structural)]
pub struct Syscall {
    pub number: u64,
    pub arg0: u64,
    pub arg1: u64,
    pub arg2: u64,
    pub arg3: u64,
    pub arg4: u64,
    pub arg5: u64,
}

/// Gives up the processor.
pub fn syscall_yield() -> (call: Syscall)
    ensures
        call == (Syscall { number: 1, arg0: 0, arg1: 0, arg2: 0, arg3: 0, arg4: 0, arg5: 0 }),
{
    Syscall { number: SYS_YIELD, arg0: 0, arg1: 0, arg2: 0, arg3: 0, arg4: 0, arg5: 0 }
}

/// Ends the calling process.
pub fn syscall_exit() -> (call: Syscall)
    ensures
        call == (Syscall { number: 93, arg0: 0, arg1: 0, arg2: 0, arg3: 0, arg4: 0, arg5: 0 }),
{
    Syscall { number: SYS_EXIT, arg0: 0, arg1: 0, arg2: 0, arg3: 0, arg4: 0, arg5: 0 }
}

/// Replaces the calling process by the program at the path that `path`
/// points to.
pub fn syscall_execv(path: u64, argv: u64) -> (call: Syscall)
    ensures
        call == (Syscall {
            number: 11,
            arg0: path,
            arg1: argv,
            arg2: 0,
            arg3: 0,
            arg4: 0,
            arg5: 0,
        }),
{
    Syscall { number: SYS_EXECV, arg0: path, arg1: argv, arg2: 0, arg3: 0, arg4: 0, arg5: 0 }
}

/// Reads `size` bytes at `offset` of the file `inode` on the device `dev`
/// into `buffer`.
pub fn syscall_fs_read(dev: u64, inode: u32, buffer: u64, size: u32, offset: u32) -> (call: Syscall)
    ensures
        call == (Syscall {
            number: 63,
            arg0: dev,
            arg1: inode as u64,
            arg2: buffer,
            arg3: size as u64,
            arg4: offset as u64,
            arg5: 0,
        }),
{
    Syscall {
        number: SYS_READ,
        arg0: dev,
        arg1: inode as u64,
        arg2: buffer,
        arg3: size as u64,
        arg4: offset as u64,
        arg5: 0,
    }
}

/// Reads `size` bytes at `offset` of the block device `dev` into `buffer`.
pub fn syscall_block_read(dev: u64, buffer: u64, size: u32, offset: u32) -> (call: Syscall)
    ensures
        call == (Syscall {
            number: 180,
            arg0: dev,
            arg1: buffer,
            arg2: size as u64,
            arg3: offset as u64,
            arg4: 0,
            arg5: 0,
        }),
{
    Syscall {
        number: SYS_BLOCK_READ,
        arg0: dev,
        arg1: buffer,
        arg2: size as u64,
        arg3: offset as u64,
        arg4: 0,
        arg5: 0,
    }
}

/// Puts the calling process to sleep for `duration` ticks.
pub fn syscall_sleep(duration: u64) -> (call: Syscall)
    ensures
        call == (Syscall {
            number: 10,
            arg0: duration,
            arg1: 0,
            arg2: 0,
            arg3: 0,
            arg4: 0,
            arg5: 0,
        }),
{
    Syscall { number: SYS_SLEEP, arg0: duration, arg1: 0, arg2: 0, arg3: 0, arg4: 0, arg5: 0 }
}

/// Asks for the identifier of the calling process.
pub fn syscall_get_pid() -> (call: Syscall)
    ensures
        call == (Syscall { number: 172, arg0: 0, arg1: 0, arg2: 0, arg3: 0, arg4: 0, arg5: 0 }),
{
    Syscall { number: SYS_GETPID, arg0: 0, arg1: 0, arg2: 0, arg3: 0, arg4: 0, arg5: 0 }
}

/// Writes the character `c` to the console.
pub fn putchar(c: u8) -> (call: Syscall)
    ensures
        call == (Syscall {
            number: 2,
            arg0: c as u64,
            arg1: 0,
            arg2: 0,
            arg3: 0,
            arg4: 0,
            arg5: 0,
        }),
{
    Syscall { number: SYS_PUTCHAR, arg0: c as u64, arg1: 0, arg2: 0, arg3: 0, arg4: 0, arg5: 0 }
}

/// Puts the calling process to sleep for `tm` ticks.
pub fn sleep(tm: u64) -> (call: Syscall)
    ensures
        call == (Syscall { number: 10, arg0: tm, arg1: 0, arg2: 0, arg3: 0, arg4: 0, arg5: 0 }),
{
    syscall_sleep(tm)
}

/// Asks for the frame buffer of the display `which_fb`.
pub fn get_fb(which_fb: u64) -> (call: Syscall)
    ensures
        call == (Syscall {
            number: 1000,
            arg0: which_fb,
            arg1: 0,
            arg2: 0,
            arg3: 0,
            arg4: 0,
            arg5: 0,
        }),
{
    Syscall {
        number: SYS_GET_FRAMEBUFFER,
        arg0: which_fb,
        arg1: 0,
        arg2: 0,
        arg3: 0,
        arg4: 0,
        arg5: 0,
    }
}

/// Asks for the rectangle at `(x, y)` of the size `w` by `h` to be shown on
/// the display `d`.
pub fn inv_rect(d: u64, x: u64, y: u64, w: u64, h: u64) -> (call: Syscall)
    ensures
        call == (Syscall {
            number: 1001,
            arg0: d,
            arg1: x,
            arg2: y,
            arg3: w,
            arg4: h,
            arg5: 0,
        }),
{
    Syscall { number: SYS_INVALIDATE_RECT, arg0: d, arg1: x, arg2: y, arg3: w, arg4: h, arg5: 0 }
}

/// Asks for up to `max` pending key events, to be stored at `events`.
pub fn get_keys(events: u64, max: u64) -> (call: Syscall)
    ensures
        call == (Syscall {
            number: 1002,
            arg0: events,
            arg1: max,
            arg2: 0,
            arg3: 0,
            arg4: 0,
            arg5: 0,
        }),
{
    Syscall { number: SYS_KEY_EVENTS, arg0: events, arg1: max, arg2: 0, arg3: 0, arg4: 0, arg5: 0 }
}

/// Asks for up to `max` pending pointer events, to be stored at `events`.
pub fn get_abs(events: u64, max: u64) -> (call: Syscall)
    ensures
        call == (Syscall {
            number: 1004,
            arg0: events,
            arg1: max,
            arg2: 0,
            arg3: 0,
            arg4: 0,
            arg5: 0,
        }),
{
    Syscall { number: SYS_ABS_EVENTS, arg0: events, arg1: max, arg2: 0, arg3: 0, arg4: 0, arg5: 0 }
}

/// Asks for the time of the machine timer.
pub fn get_time() -> (call: Syscall)
    ensures
        call == (Syscall { number: 1062, arg0: 0, arg1: 0, arg2: 0, arg3: 0, arg4: 0, arg5: 0 }),
{
    Syscall { number: SYS_TIME, arg0: 0, arg1: 0, arg2: 0, arg3: 0, arg4: 0, arg5: 0 }
}

/// What is left to do outside the kernel core once `do_syscall` has served a
/// call.
#[derive(Debug)]
#[allow(inconsistent_fields)]
pub enum SyscallAction {
    /// Nothing.
    Done,
    /// No process has its frame at the address given: nothing was done.
    NoProcess,
    /// Write the character to the console.
    PutChar(u8),
    /// Print the registers of the calling frame.
    DumpRegisters,
    /// Write the bytes to the console.
    Print(Vec<u8>),
    /// Look the path up in the file system and call `exec_finish`.
    Exec { path: Vec<u8> },
    /// Look the path up among the devices and in the file system and call
    /// `open_finish`.
    Open { path: Vec<u8> },
    /// Read from the console into the buffer of the caller.
    ReadStdin { buffer: u64, size: u64 },
    /// Start a transfer of `size` bytes at `offset` of the block device
    /// `dev` into `buffer`, and wake `watcher` when it is done.
    BlockOp { dev: u64, buffer: u64, size: u32, offset: u64, write: bool, watcher: u16 },
    /// Hand the frame buffer of the display `dev` to the caller.
    Framebuffer { dev: u64 },
    /// Transfer a rectangle of the frame buffer to the display `dev`.
    InvalidateRect { dev: u64, x: u32, y: u32, width: u32, height: u32 },
    /// Hand up to `max` pending key events to the caller, into `buffer`.
    KeyEvents { buffer: u64, max: u64 },
    /// Hand up to `max` pending pointer events to the caller, into `buffer`.
    AbsEvents { buffer: u64, max: u64 },
    /// The number of the call is not known.
    Unknown(u64),
}

/// The address behind the call instruction at `mepc`, as the 64-bit program
/// counter counts.
pub open spec fn next_pc(mepc: u64) -> u64 {
    if mepc + 4 > u64::MAX {
        (mepc + 4 - 0x1_0000_0000_0000_0000) as u64
    } else {
        (mepc + 4) as u64
    }
}

/// The frame `f` with its program counter behind the call at `mepc`.
pub open spec fn resumed(f: FrameView, mepc: u64) -> FrameView {
    FrameView { pc: next_pc(mepc), ..f }
}

/// The frame `f` with `value` in the return register.
pub open spec fn replied(f: FrameView, value: u64) -> FrameView {
    FrameView { regs: f.regs.update(10, value), ..f }
}

/// Of the processes `before`, only the one at position `i` has changed, and
/// only in its register frame, which now holds `frame`.
pub open spec fn frame_changed(
    before: Seq<Process>,
    after: Seq<Process>,
    i: int,
    frame: FrameView,
) -> bool {
    &&& after.len() == before.len()
    &&& forall|j: int| 0 <= j < before.len() && j != i ==> #[trigger] after[j] == before[j]
    &&& after[i].with_frame(before[i], frame)
}

/// The calls that only answer: the value each of them leaves in the return
/// register, if it leaves one.
pub open spec fn plain_reply(number: u64, f: FrameView, now: u64) -> Option<u64> {
    if number == SYS_FACCESSAT || number == SYS_WRITEV {
        Some(FAILED)
    } else if number == SYS_FSTAT {
        Some(0)
    } else if number == SYS_GETPID {
        Some(f.pid)
    } else if number == SYS_TIME {
        Some(now)
    } else if number == SYS_GET_FRAMEBUFFER {
        Some(0)
    } else if number == SYS_READ {
        Some(0)
    } else {
        None
    }
}

/// What is left to do outside for the calls that change nothing but the
/// frame of the caller.
pub open spec fn plain_action(number: u64, f: FrameView, action: SyscallAction) -> bool {
    let a0 = f.regs[10];
    let a1 = f.regs[11];
    let a2 = f.regs[12];
    let a3 = f.regs[13];
    let a4 = f.regs[14];
    if number == SYS_PUTCHAR {
        action == SyscallAction::PutChar(spec_low8(a0))
    } else if number == SYS_DUMP {
        action is DumpRegisters
    } else if number == SYS_READ {
        if spec_low16(a0) == 0 {
            action == (SyscallAction::ReadStdin { buffer: a1, size: a2 })
        } else {
            action is Done
        }
    } else if number == SYS_GET_FRAMEBUFFER {
        if 0 < a0 <= 8 {
            action == (SyscallAction::Framebuffer { dev: a0 })
        } else {
            action is Done
        }
    } else if number == SYS_INVALIDATE_RECT {
        action == (SyscallAction::InvalidateRect {
            dev: a0,
            x: spec_low32(a1),
            y: spec_low32(a2),
            width: spec_low32(a3),
            height: spec_low32(a4),
        })
    } else if number == SYS_KEY_EVENTS {
        action == (SyscallAction::KeyEvents { buffer: a0, max: a1 })
    } else if number == SYS_ABS_EVENTS {
        action == (SyscallAction::AbsEvents { buffer: a0, max: a1 })
    } else if number == SYS_YIELD || number == SYS_FACCESSAT || number == SYS_WRITEV || number
        == SYS_FSTAT || number == SYS_GETPID || number == SYS_TIME {
        action is Done
    } else {
        action == SyscallAction::Unknown(number)
    }
}

/// The call with the number `number` changes more than the frame of the
/// caller, or needs the memory of the caller.
pub open spec fn is_special(number: u64) -> bool {
    ||| number == SYS_EXIT
    ||| number == SYS_EXIT_GROUP
    ||| number == SYS_SLEEP
    ||| number == SYS_BLOCK_READ
    ||| number == SYS_EXECV
    ||| number == SYS_WRITE
    ||| number == SYS_BRK
    ||| number == SYS_CLOSE
    ||| number == SYS_OPEN
    ||| number == SYS_GETCWD
}

/// What `do_syscall` does for the process at position `i` of `before`,
/// which made a call at `mepc`.
pub open spec fn syscall_effect(
    before: Seq<Process>,
    after: Seq<Process>,
    alloc_before: PageAllocator,
    alloc_after: PageAllocator,
    i: int,
    mepc: u64,
    now: u64,
    action: SyscallAction,
) -> bool {
    let p = before[i];
    let f = resumed(p.frame@, mepc);
    let number = f.regs[17];
    if number == SYS_EXIT || number == SYS_EXIT_GROUP {
        &&& after == before.remove(i)
        &&& alloc_after.memory() == alloc_before.memory()
        &&& alloc_after.pages() == crate::page::release_all(
            alloc_before.start(),
            alloc_before.pages(),
            p.owned_pages(),
        )
        &&& action is Done
    } else if number == SYS_SLEEP {
        &&& after.len() == before.len()
        &&& forall|j: int| 0 <= j < before.len() && j != i ==> #[trigger] after[j] == before[j]
        &&& after[i].with_frame(
            Process {
                state: ProcessState::Sleeping,
                sleep_until: wake_time(now, f.regs[10]),
                ..p
            },
            f,
        )
        &&& alloc_after == alloc_before
        &&& action is Done
    } else if number == SYS_BLOCK_READ {
        &&& after.len() == before.len()
        &&& forall|j: int| 0 <= j < before.len() && j != i ==> #[trigger] after[j] == before[j]
        &&& after[i].with_frame(Process { state: ProcessState::Waiting, ..p }, f)
        &&& alloc_after == alloc_before
        &&& action == (SyscallAction::BlockOp {
            dev: f.regs[10],
            buffer: f.regs[11],
            size: spec_low32(f.regs[12]),
            offset: f.regs[13],
            write: false,
            watcher: p.pid,
        })
    } else if !is_special(number) {
        &&& frame_changed(
            before,
            after,
            i,
            match plain_reply(number, f, now) {
                Some(v) => replied(f, v),
                None => f,
            },
        )
        &&& alloc_after == alloc_before
        &&& plain_action(number, f, action)
    } else if number == SYS_WRITE {
        &&& alloc_after == alloc_before
        &&& frame_changed(before, after, i, written_reply(p, alloc_before, f))
        &&& if is_console(f.regs[10]) && crate::cpu::translation_on(f.satp) {
            action matches SyscallAction::Print(bytes) && bytes@ == p.user_bytes(
                alloc_before,
                f.regs[11],
                f.regs[12],
            )
        } else {
            action is Done
        }
    } else if number == SYS_EXECV {
        &&& alloc_after == alloc_before
        &&& match p.user_addr(f.regs[10]) {
            Some(paddr) => {
                &&& frame_changed(before, after, i, f)
                &&& action matches SyscallAction::Exec { path }
                &&& path@ == alloc_before.string_at(paddr as int)
            },
            None => frame_changed(before, after, i, replied(f, FAILED)) && action is Done,
        }
    } else if number == SYS_GETCWD {
        &&& alloc_after == alloc_before
        &&& frame_changed(
            before,
            after,
            i,
            if p.user_addr(f.regs[10]) is Some {
                f
            } else {
                replied(f, FAILED)
            },
        )
        &&& action is Done
    } else if number == SYS_CLOSE {
        let fd = spec_low16(f.regs[10]);
        &&& after.len() == before.len()
        &&& forall|j: int| 0 <= j < before.len() && j != i ==> #[trigger] after[j] == before[j]
        &&& after[i].frame@ == replied(
            f,
            if p.data.fdesc@.contains_key(fd) {
                0
            } else {
                FAILED
            },
        )
        &&& (Process { frame: p.frame, ..after[i] }).closed(p, fd)
        &&& alloc_after == alloc_before
        &&& action is Done
    } else if number == SYS_OPEN {
        &&& alloc_after == alloc_before
        &&& match p.user_addr(f.regs[10]) {
            Some(paddr) => {
                let name = short_path(alloc_before.string_at(paddr as int));
                match device_named(name) {
                    Some(d) => {
                        let top = Process::top_fd(p.data.fdesc@, u16::MAX);
                        &&& after.len() == before.len()
                        &&& forall|j: int|
                            0 <= j < before.len() && j != i ==> #[trigger] after[j] == before[j]
                        &&& (Process { frame: p.frame, ..after[i] }).opened(p, d)
                        &&& after[i].frame@ == replied(
                            f,
                            if top < u16::MAX {
                                (top + 1) as u64
                            } else {
                                FAILED
                            },
                        )
                        &&& action is Done
                    },
                    None => {
                        &&& frame_changed(before, after, i, f)
                        &&& action matches SyscallAction::Open { path }
                        &&& path@ == name
                    },
                }
            },
            None => frame_changed(before, after, i, replied(f, FAILED)) && action is Done,
        }
    } else {
        // the break
        let answer = after[i].frame@.regs[10];
        &&& after.len() == before.len()
        &&& forall|j: int| 0 <= j < before.len() && j != i ==> #[trigger] after[j] == before[j]
        &&& after[i].frame@ == replied(f, answer)
        &&& (Process { frame: p.frame, ..after[i] }).break_moved(
            p,
            alloc_before,
            alloc_after,
            f.regs[10],
            answer,
        )
        &&& action is Done
    }
}

/// The path `/dev/fb` of the frame buffer.
pub open spec fn framebuffer_path() -> Seq<u8> {
    seq![47u8, 100u8, 101u8, 118u8, 47u8, 102u8, 98u8]
}

/// The path `/dev/butev` of the key events.
pub open spec fn button_events_path() -> Seq<u8> {
    seq![47u8, 100u8, 101u8, 118u8, 47u8, 98u8, 117u8, 116u8, 101u8, 118u8]
}

/// The path `/dev/absev` of the pointer events.
pub open spec fn absolute_events_path() -> Seq<u8> {
    seq![47u8, 100u8, 101u8, 118u8, 47u8, 97u8, 98u8, 115u8, 101u8, 118u8]
}

/// The device that the path `path` names, if it names one.
pub open spec fn device_named(path: Seq<u8>) -> Option<FileDescriptor> {
    if path == framebuffer_path() {
        Some(FileDescriptor::Framebuffer)
    } else if path == button_events_path() {
        Some(FileDescriptor::ButtonEvents)
    } else if path == absolute_events_path() {
        Some(FileDescriptor::AbsoluteEvents)
    } else {
        None
    }
}

/// Whether `path` is the path `/dev/` followed by the five bytes of `name`
/// or, if `short`, by its first two.
fn is_device(path: &Vec<u8>, name: [u8; 5], short: bool) -> (r: bool)
    ensures
        r == (path@ == if short {
            seq![47u8, 100u8, 101u8, 118u8, 47u8, name@[0], name@[1]]
        } else {
            seq![
                47u8,
                100u8,
                101u8,
                118u8,
                47u8,
                name@[0],
                name@[1],
                name@[2],
                name@[3],
                name@[4],
            ]
        }),
{
    let n: usize = if short {
        7
    } else {
        10
    };
    if path.len() != n {
        return false;
    }
    let same = path[0] == 47 && path[1] == 100 && path[2] == 101 && path[3] == 118 && path[4] == 47
        && path[5] == name[0] && path[6] == name[1];
    if short {
        proof {
            assert(same ==> path@ =~= seq![47u8, 100u8, 101u8, 118u8, 47u8, name@[0], name@[1]]);
        }
        return same;
    }
    let all = same && path[7] == name[2] && path[8] == name[3] && path[9] == name[4];
    proof {
        assert(all ==> path@ =~= seq![
            47u8,
            100u8,
            101u8,
            118u8,
            47u8,
            name@[0],
            name@[1],
            name@[2],
            name@[3],
            name@[4],
        ]);
    }
    all
}

/// The device that the path `path` names, if it names one.
pub fn device_descriptor(path: &Vec<u8>) -> (r: Option<FileDescriptor>)
    ensures
        r == device_named(path@),
{
    if is_device(path, [102, 98, 0, 0, 0], true) {
        Some(FileDescriptor::Framebuffer)
    } else if is_device(path, [98, 117, 116, 101, 118], false) {
        Some(FileDescriptor::ButtonEvents)
    } else if is_device(path, [97, 98, 115, 101, 118], false) {
        Some(FileDescriptor::AbsoluteEvents)
    } else {
        None
    }
}

/// The part of a path that a call to open looks at: its first 256 bytes.
pub open spec fn short_path(path: Seq<u8>) -> Seq<u8> {
    if path.len() > PATH_MAX {
        path.take(PATH_MAX as int)
    } else {
        path
    }
}

/// The file descriptor `fd` names the console: standard output or standard
/// error.
pub open spec fn is_console(fd: u64) -> bool {
    spec_low16(fd) == 1 || spec_low16(fd) == 2
}

/// The frame of the process `p` after a call to write; `f` is its frame
/// before the answer. To the console: the number of bytes that were
/// handed on, one more if the writing stopped at a byte that could not be
/// read; all of them where the process runs without address translation,
/// in which case none is handed on. To an open file: no answer. To anything
/// else: 0.
pub open spec fn written_reply(p: Process, alloc: PageAllocator, f: FrameView) -> FrameView {
    let fd = f.regs[10];
    let size = f.regs[12];
    if is_console(fd) {
        if crate::cpu::translation_on(f.satp) {
            let n = p.user_bytes(alloc, f.regs[11], size).len();
            replied(
                f,
                if n < size {
                    (n + 1) as u64
                } else {
                    size
                },
            )
        } else {
            replied(f, size)
        }
    } else if p.data.fdesc@.contains_key(spec_low16(fd)) && (p.data.fdesc@[spec_low16(fd)] is File
        || p.data.fdesc@[spec_low16(fd)] is Framebuffer) {
        f
    } else {
        replied(f, 0)
    }
}

/// Serves the system call that the process with its frame at `frame` made
/// with the call instruction at `mepc`, at the time `now`. The program
/// counter of the process is set behind the call instruction, the call is
/// decoded from the registers of the frame and served; the result says what
/// is left to do outside.
pub fn do_syscall(
    table: &mut ProcessTable,
    alloc: &mut PageAllocator,
    mepc: u64,
    frame: u64,
    now: u64,
) -> (action: SyscallAction)
    requires
        old(table).wf(),
        old(alloc).wf(),
    ensures
        final(table).wf(),
        final(table).same_frame(*old(table)),
        final(alloc).wf(),
        final(alloc).start() == old(alloc).start(),
        final(alloc).num_pages() == old(alloc).num_pages(),
        !has_frame(old(table).procs(), frame) ==> action is NoProcess && final(table).procs()
            == old(table).procs() && *final(alloc) == *old(alloc),
        has_frame(old(table).procs(), frame) ==> syscall_effect(
            old(table).procs(),
            final(table).procs(),
            *old(alloc),
            *final(alloc),
            frame_index(old(table).procs(), frame),
            mepc,
            now,
            action,
        ),
{
    let i = match table.find_frame(frame) {
        Some(i) => i,
        None => {
            return SyscallAction::NoProcess;
        },
    };
    let ghost p = table.procs()[i as int];
    let ghost f = resumed(p.frame@, mepc);
    table.set_pc(i, mepc.wrapping_add(4));
    let ghost advanced = table.procs();
    let regs = table.get(i).frame.regs;
    let pid = table.get(i).pid;
    let number = regs[gp(Registers::A7)];
    let a0 = regs[gp(Registers::A0)];
    let a1 = regs[gp(Registers::A1)];
    let a2 = regs[gp(Registers::A2)];
    let a3 = regs[gp(Registers::A3)];
    let a4 = regs[gp(Registers::A4)];
    proof {
        lemma_pid_index(*table, i as int);
    }
    if number == SYS_EXIT || number == SYS_EXIT_GROUP {
        delete_process(table, alloc, pid);
        proof {
            assert(advanced.remove(i as int) =~= old(table).procs().remove(i as int));
            assert(advanced[i as int].owned_pages() == p.owned_pages());
        }
        SyscallAction::Done
    } else if number == SYS_YIELD {
        SyscallAction::Done
    } else if number == SYS_PUTCHAR {
        SyscallAction::PutChar(low8(a0))
    } else if number == SYS_DUMP {
        SyscallAction::DumpRegisters
    } else if number == SYS_SLEEP {
        set_sleeping(table, pid, a0, now);
        SyscallAction::Done
    } else if number == SYS_FACCESSAT || number == SYS_WRITEV {
        table.set_reg(i, gp(Registers::A0), FAILED);
        SyscallAction::Done
    } else if number == SYS_FSTAT {
        table.set_reg(i, gp(Registers::A0), 0);
        SyscallAction::Done
    } else if number == SYS_READ {
        table.set_reg(i, gp(Registers::A0), 0);
        if low16(a0) == 0 {
            SyscallAction::ReadStdin { buffer: a1, size: a2 }
        } else {
            SyscallAction::Done
        }
    } else if number == SYS_GETPID {
        table.set_reg(i, gp(Registers::A0), pid as u64);
        SyscallAction::Done
    } else if number == SYS_BLOCK_READ {
        set_waiting(table, pid);
        SyscallAction::BlockOp {
            dev: a0,
            buffer: a1,
            size: low32(a2),
            offset: a3,
            write: false,
            watcher: pid,
        }
    } else if number == SYS_GET_FRAMEBUFFER {
        table.set_reg(i, gp(Registers::A0), 0);
        if a0 > 0 && a0 <= 8 {
            SyscallAction::Framebuffer { dev: a0 }
        } else {
            SyscallAction::Done
        }
    } else if number == SYS_INVALIDATE_RECT {
        SyscallAction::InvalidateRect {
            dev: a0,
            x: low32(a1),
            y: low32(a2),
            width: low32(a3),
            height: low32(a4),
        }
    } else if number == SYS_KEY_EVENTS {
        SyscallAction::KeyEvents { buffer: a0, max: a1 }
    } else if number == SYS_ABS_EVENTS {
        SyscallAction::AbsEvents { buffer: a0, max: a1 }
    } else if number == SYS_TIME {
        table.set_reg(i, gp(Registers::A0), now);
        SyscallAction::Done
    } else if number == SYS_WRITE {
        let fd = low16(a0);
        if fd == 1 || fd == 2 {
            let satp = table.get(i).frame.satp;
            if satp >> 60 != 0 {
                let bytes = table.get(i).read_bytes(alloc, a1, a2);
                let count: u64 = if (bytes.len() as u64) < a2 {
                    bytes.len() as u64 + 1
                } else {
                    a2
                };
                proof {
                    lemma_readable_bound(advanced[i as int], *alloc, a1, a2, 0);
                    assert(advanced[i as int].user_bytes(*alloc, a1, a2) =~= p.user_bytes(
                        *alloc,
                        a1,
                        a2,
                    )) by {
                        lemma_same_bytes(advanced[i as int], p, *alloc, a1, a2, 0);
                    }
                }
                table.set_reg(i, gp(Registers::A0), count);
                SyscallAction::Print(bytes)
            } else {
                table.set_reg(i, gp(Registers::A0), a2);
                SyscallAction::Done
            }
        } else {
            let keep = match table.get(i).data.fdesc.get(&fd) {
                Some(FileDescriptor::File(_)) => true,
                Some(FileDescriptor::Framebuffer) => true,
                _ => false,
            };
            if !keep {
                table.set_reg(i, gp(Registers::A0), 0);
            }
            SyscallAction::Done
        }
    } else if number == SYS_EXECV {
        match table.get(i).translate(a0) {
            Some(paddr) => SyscallAction::Exec { path: alloc.read_string(paddr) },
            None => {
                table.set_reg(i, gp(Registers::A0), FAILED);
                SyscallAction::Done
            },
        }
    } else if number == SYS_GETCWD {
        if table.get(i).translate(a0).is_none() {
            table.set_reg(i, gp(Registers::A0), FAILED);
        }
        SyscallAction::Done
    } else if number == SYS_CLOSE {
        let answer = if table.close(i, low16(a0)) {
            0
        } else {
            FAILED
        };
        table.set_reg(i, gp(Registers::A0), answer);
        let action = SyscallAction::Done;
        proof {
            let after = table.procs();
            let fd = spec_low16(a0);
            assert((Process { frame: p.frame, ..after[i as int] }).closed(p, fd)) by {
                let closed = Process { frame: p.frame, ..after[i as int] };
                if p.data.fdesc@.contains_key(fd) {
                    assert(closed.data == after[i as int].data);
                }
            }
        }
        action
    } else if number == SYS_OPEN {
        match table.get(i).translate(a0) {
            Some(paddr) => {
                let mut path = alloc.read_string(paddr);
                let ghost whole = path@;
                path.truncate(PATH_MAX);
                proof {
                    assert(path@ =~= short_path(whole));
                }
                match device_descriptor(&path) {
                    Some(d) => {
                        let ghost before_open = table.procs()[i as int];
                        let answer = match table.open(i, d) {
                            Some(fd) => fd as u64,
                            None => FAILED,
                        };
                        let ghost opened = table.procs()[i as int];
                        table.set_reg(i, gp(Registers::A0), answer);
                        proof {
                            let after = table.procs();
                            let back = Process { frame: p.frame, ..after[i as int] };
                            let mid = Process { frame: p.frame, ..opened };
                            assert(opened.opened(before_open, d));
                            assert(back.data == opened.data);
                            assert(back == mid);
                            assert(mid.opened(p, d));
                        }
                        SyscallAction::Done
                    },
                    None => SyscallAction::Open { path },
                }
            },
            None => {
                table.set_reg(i, gp(Registers::A0), FAILED);
                SyscallAction::Done
            },
        }
    } else if number == SYS_BRK {
        let answer = table.move_break(i, alloc, a0);
        table.set_reg(i, gp(Registers::A0), answer);
        SyscallAction::Done
    } else {
        SyscallAction::Unknown(number)
    }
}

/// A process reads no more bytes than it asks for.
pub proof fn lemma_readable_bound(p: Process, alloc: PageAllocator, buf: u64, size: u64, k: int)
    requires
        0 <= k <= size,
    ensures
        k <= p.readable(alloc, buf, size, k) <= size,
    decreases size - k,
{
    if k < size && p.user_byte(alloc, Process::offset(buf, k)) is Some {
        lemma_readable_bound(p, alloc, buf, size, k + 1);
    }
}

/// What a process can read depends on its address space and on whether it
/// runs with address translation, and on nothing else of it.
pub proof fn lemma_same_bytes(
    p: Process,
    q: Process,
    alloc: PageAllocator,
    buf: u64,
    size: u64,
    k: int,
)
    requires
        p.root == q.root,
        p.frame.satp == q.frame.satp,
    ensures
        p.readable(alloc, buf, size, k) == q.readable(alloc, buf, size, k),
        forall|v: u64| p.user_byte(alloc, v) == q.user_byte(alloc, v),
    decreases size - k,
{
    if !(k < 0 || k >= size || p.user_byte(alloc, Process::offset(buf, k)) is None) {
        lemma_same_bytes(p, q, alloc, buf, size, k + 1);
    }
}

/// In a well-formed table the process at position `i` is the one that its
/// identifier finds.
pub proof fn lemma_pid_index(table: ProcessTable, i: int)
    requires
        table.wf(),
        0 <= i < table.procs().len(),
    ensures
        crate::process::has_pid(table.procs(), table.procs()[i].pid),
        crate::process::pid_index(table.procs(), table.procs()[i].pid) == i,
{
    let procs = table.procs();
    let pid = procs[i].pid;
    let j = crate::process::pid_index(procs, pid);
    assert(procs[i].pid == pid);
    if j < i {
        assert(procs[j].pid != procs[i].pid);
    } else if i < j {
        assert(procs[i].pid != procs[j].pid);
    }
}

/// Makes a process of the image `image` and puts it at the end of the
/// table, runnable. The result is the identifier of the process. An image
/// that is refused, or for which there is no room or no identifier left,
/// changes nothing.
pub fn exec_func(table: &mut ProcessTable, alloc: &mut PageAllocator, image: &Vec<u8>) -> (r:
    Result<u16, LoadErrors>)
    requires
        old(table).wf(),
        old(alloc).wf(),
    ensures
        final(table).wf(),
        final(table).locked() == old(table).locked(),
        final(table).exit_routine() == old(table).exit_routine(),
        final(alloc).wf(),
        final(alloc).start() == old(alloc).start(),
        final(alloc).num_pages() == old(alloc).num_pages(),
        match r {
            Err(e) => {
                &&& final(table).procs() == old(table).procs()
                &&& final(table).next_pid() == old(table).next_pid()
                &&& final(alloc).pages() == old(alloc).pages()
                &&& final(alloc).memory() == old(alloc).memory()
                &&& match image_error(image@) {
                    Some(x) => e == x,
                    None => e == LoadErrors::Memory && (old(table).next_pid() == u16::MAX
                        || !loadable_into(image@, *old(alloc))),
                }
            },
            Ok(pid) => {
                &&& pid == old(table).next_pid()
                &&& final(table).next_pid() == pid + 1
                &&& final(table).procs().len() == old(table).procs().len() + 1
                &&& final(table).procs().drop_last() == old(table).procs()
                &&& made_process(
                    image@,
                    *old(alloc),
                    *final(alloc),
                    pid,
                    final(table).procs().last(),
                )
            },
        },
{
    let pid = table.get_next_pid();
    if pid == u16::MAX {
        return match File::load(image) {
            Ok(_) => Err(LoadErrors::Memory),
            Err(e) => Err(e),
        };
    }
    match File::load_proc(image, alloc, pid) {
        Ok(p) => {
            table.add(p);
            proof {
                assert(table.procs().drop_last() =~= old(table).procs());
            }
            Ok(pid)
        },
        Err(e) => Err(e),
    }
}

/// Ends a call to replace the process by a program whose image could not be
/// had: the process with its frame at `frame` finds the failure in its
/// return register.
pub fn exec_failed(table: &mut ProcessTable, frame: u64)
    requires
        old(table).wf(),
    ensures
        final(table).wf(),
        final(table).same_frame(*old(table)),
        !has_frame(old(table).procs(), frame) ==> final(table).procs() == old(table).procs(),
        has_frame(old(table).procs(), frame) ==> frame_changed(
            old(table).procs(),
            final(table).procs(),
            frame_index(old(table).procs(), frame),
            replied(old(table).procs()[frame_index(old(table).procs(), frame)].frame@, FAILED),
        ),
{
    match table.find_frame(frame) {
        Some(i) => {
            table.set_reg(i, gp(Registers::A0), FAILED);
        },
        None => {},
    }
}

/// Ends a call to open a path of the file system. `file` is the file that
/// the path names, `None` if it names none. The process with its frame at
/// `frame` is given the file descriptor above the greatest that it has
/// open, and finds it in its return register; it finds the failure there
/// where the path names no file or no descriptor is left.
pub fn open_finish(table: &mut ProcessTable, frame: u64, file: Option<crate::fs::Inode>)
    requires
        old(table).wf(),
    ensures
        final(table).wf(),
        final(table).same_frame(*old(table)),
        !has_frame(old(table).procs(), frame) ==> final(table).procs() == old(table).procs(),
        has_frame(old(table).procs(), frame) ==> {
            let i = frame_index(old(table).procs(), frame);
            let p = old(table).procs()[i];
            let after = final(table).procs();
            let top = Process::top_fd(p.data.fdesc@, u16::MAX);
            &&& after.len() == old(table).procs().len()
            &&& forall|j: int|
                0 <= j < after.len() && j != i ==> #[trigger] after[j] == old(table).procs()[j]
            &&& match file {
                Some(inode) => {
                    &&& (Process { frame: p.frame, ..after[i] }).opened(
                        p,
                        FileDescriptor::File(inode),
                    )
                    &&& after[i].frame@ == replied(
                        p.frame@,
                        if top < u16::MAX {
                            (top + 1) as u64
                        } else {
                            FAILED
                        },
                    )
                },
                None => after[i].with_frame(p, replied(p.frame@, FAILED)),
            }
        },
{
    let i = match table.find_frame(frame) {
        Some(i) => i,
        None => {
            return ;
        },
    };
    let ghost p = table.procs()[i as int];
    let answer = match file {
        Some(inode) => match table.open(i, FileDescriptor::File(inode)) {
            Some(fd) => fd as u64,
            None => FAILED,
        },
        None => FAILED,
    };
    let ghost opened = table.procs()[i as int];
    table.set_reg(i, gp(Registers::A0), answer);
    proof {
        let after = table.procs();
        match file {
            Some(inode) => {
                let back = Process { frame: p.frame, ..after[i as int] };
                assert(opened.opened(p, FileDescriptor::File(inode)));
                assert(back.data == opened.data);
                assert(back == opened);
            },
            None => {
                assert(opened == p);
            },
        }
    }
}

/// Ends a call to replace the process with its frame at `frame` by the
/// program `image`. The new process is made first; then the caller is
/// deleted. Where the image is refused or finds no room, the caller stays,
/// with the failure in its return register, and nothing else is changed.
pub fn exec_finish(
    table: &mut ProcessTable,
    alloc: &mut PageAllocator,
    frame: u64,
    image: &Vec<u8>,
) -> (r: Result<u16, LoadErrors>)
    requires
        old(table).wf(),
        old(alloc).wf(),
    ensures
        final(table).wf(),
        final(table).locked() == old(table).locked(),
        final(table).exit_routine() == old(table).exit_routine(),
        final(alloc).wf(),
        final(alloc).start() == old(alloc).start(),
        final(alloc).num_pages() == old(alloc).num_pages(),
        match r {
            Err(e) => {
                &&& final(table).next_pid() == old(table).next_pid()
                &&& final(alloc).pages() == old(alloc).pages()
                &&& final(alloc).memory() == old(alloc).memory()
                &&& match image_error(image@) {
                    Some(x) => e == x,
                    None => e == LoadErrors::Memory && (old(table).next_pid() == u16::MAX
                        || !loadable_into(image@, *old(alloc))),
                }
                &&& !has_frame(old(table).procs(), frame) ==> final(table).procs() == old(
                    table,
                ).procs()
                &&& has_frame(old(table).procs(), frame) ==> frame_changed(
                    old(table).procs(),
                    final(table).procs(),
                    frame_index(old(table).procs(), frame),
                    replied(
                        old(table).procs()[frame_index(old(table).procs(), frame)].frame@,
                        FAILED,
                    ),
                )
            },
            Ok(pid) => exists|made: PageAllocator, p: Process|
                {
                    &&& pid == old(table).next_pid()
                    &&& final(table).next_pid() == pid + 1
                    &&& #[trigger] made_process(image@, *old(alloc), made, pid, p)
                    &&& made.wf()
                    &&& made.start() == old(alloc).start()
                    &&& final(alloc).memory() == made.memory()
                    &&& if has_frame(old(table).procs(), frame) {
                        let i = frame_index(old(table).procs(), frame);
                        &&& final(table).procs() == old(table).procs().remove(i).push(p)
                        &&& final(alloc).pages() == crate::page::release_all(
                            made.start(),
                            made.pages(),
                            old(table).procs()[i].owned_pages(),
                        )
                    } else {
                        &&& final(table).procs() == old(table).procs().push(p)
                        &&& final(alloc).pages() == made.pages()
                    }
                },
        },
{
    let caller = table.find_frame(frame);
    match exec_func(table, alloc, image) {
        Ok(pid) => {
            let ghost made = *alloc;
            let ghost p = table.procs().last();
            let ghost grown = table.procs();
            match caller {
                Some(i) => {
                    let old_pid = table.get(i).pid;
                    proof {
                        assert(grown[i as int] == old(table).procs()[i as int]);
                        lemma_pid_index(*table, i as int);
                    }
                    delete_process(table, alloc, old_pid);
                    proof {
                        assert(grown =~= old(table).procs().push(p));
                        assert(grown.remove(i as int) =~= old(table).procs().remove(i as int).push(
                            p,
                        ));
                    }
                },
                None => {
                    proof {
                        assert(grown =~= old(table).procs().push(p));
                    }
                },
            }
            proof {
                assert(made_process(image@, *old(alloc), made, pid, p));
            }
            Ok(pid)
        },
        Err(e) => {
            exec_failed(table, frame);
            Err(e)
        },
    }
}

/// The smaller of a length and a count that a register holds.
pub open spec fn at_most(len: nat, max: u64) -> int {
    if len < max {
        len as int
    } else {
        max as int
    }
}

/// Ends a call to read from the console. Where no input is queued, the
/// process with its frame at `frame` joins the queue of the console and
/// waits. Else the input, `size` bytes of it at most, is taken from the
/// queue and stored in the memory of the process, from `buffer` on and as
/// far as the addresses lead into memory; the process finds the number of
/// bytes that were stored in its return register. A process that runs
/// without address translation is given no byte.
pub fn read_stdin(
    console: &mut Console,
    table: &mut ProcessTable,
    alloc: &mut PageAllocator,
    frame: u64,
    buffer: u64,
    size: u64,
)
    requires
        old(table).wf(),
        old(alloc).wf(),
    ensures
        final(table).wf(),
        final(table).same_frame(*old(table)),
        final(alloc).wf(),
        final(alloc).start() == old(alloc).start(),
        final(alloc).pages() == old(alloc).pages(),
        final(console).out_buffer@ == old(console).out_buffer@,
        !has_frame(old(table).procs(), frame) ==> {
            &&& final(table).procs() == old(table).procs()
            &&& final(alloc).memory() == old(alloc).memory()
            &&& final(console).in_buffer@ == old(console).in_buffer@
            &&& final(console).queue@ == old(console).queue@
        },
        has_frame(old(table).procs(), frame) ==> {
            let i = frame_index(old(table).procs(), frame);
            let p = old(table).procs()[i];
            let input = old(console).in_buffer@;
            let n = at_most(input.len(), size);
            let after = final(table).procs();
            &&& after.len() == old(table).procs().len()
            &&& forall|j: int|
                0 <= j < after.len() && j != i ==> #[trigger] after[j] == old(table).procs()[j]
            &&& if n == 0 {
                &&& final(console).queue@ == old(console).queue@.push(p.pid)
                &&& final(console).in_buffer@ == input
                &&& final(alloc).memory() == old(alloc).memory()
                &&& after[i].with_frame(
                    Process { state: ProcessState::Waiting, ..p },
                    replied(p.frame@, 0),
                )
            } else {
                let count = if crate::cpu::translation_on(p.frame.satp) {
                    p.readable(*old(alloc), buffer, n as u64, 0)
                } else {
                    0
                };
                &&& final(console).queue@ == old(console).queue@
                &&& final(console).in_buffer@ == input.skip(n)
                &&& final(alloc).memory() == p.user_stored(
                    *old(alloc),
                    buffer,
                    input.take(n),
                    count,
                )
                &&& after[i].with_frame(p, replied(p.frame@, count as u64))
            }
        },
{
    let i = match table.find_frame(frame) {
        Some(i) => i,
        None => {
            return ;
        },
    };
    let pid = table.get(i).pid;
    let ghost p = table.procs()[i as int];
    let ghost input = console.in_buffer@;
    let available = console.in_buffer.len();
    let num: usize = if (available as u64) < size {
        available
    } else {
        size as usize
    };
    if num == 0 {
        crate::console::push_queue(console, pid);
        proof {
            lemma_pid_index(*table, i as int);
        }
        set_waiting(table, pid);
        table.set_reg(i, gp(Registers::A0), 0);
        return ;
    }
    let mut taken: Vec<u8> = Vec::new();
    let mut k: usize = 0;
    while k < num
        invariant
            k <= num,
            num <= input.len(),
            taken@ == input.take(k as int),
            console.in_buffer@ == input.skip(k as int),
            console.out_buffer@ == old(console).out_buffer@,
            console.queue@ == old(console).queue@,
        decreases num - k,
    {
        match console.in_buffer.pop_front() {
            Some(c) => {
                taken.push(c);
                proof {
                    assert(taken@ =~= input.take(k + 1));
                    assert(console.in_buffer@ =~= input.skip(k + 1));
                }
            },
            None => {
                proof {
                    assert(false);
                }
            },
        }
        k = k + 1;
    }
    let count: usize = if table.get(i).frame.satp >> 60 != 0 {
        table.get(i).write_bytes(alloc, buffer, &taken)
    } else {
        0
    };
    table.set_reg(i, gp(Registers::A0), count as u64);
}

/// The eight bytes of an event in memory: its kind, its code and its value,
/// each with its low byte first.
pub open spec fn event_bytes(e: Event) -> Seq<u8> {
    seq![
        (e.event_type.spec_val() % 256) as u8,
        (e.event_type.spec_val() / 256) as u8,
        (e.code % 256) as u8,
        (e.code / 256) as u8,
        (e.value % 256) as u8,
        (e.value / 256 % 256) as u8,
        (e.value / 65536 % 256) as u8,
        (e.value / 16777216) as u8,
    ]
}

/// Event number `k` of a delivery to `buffer` can be stored: its address
/// leads into the memory of `alloc`, and so do the seven addresses behind
/// the place that it leads to.
pub open spec fn event_fits(p: Process, alloc: PageAllocator, buffer: u64, k: int) -> bool {
    match p.user_addr(Process::offset(buffer, 8 * k)) {
        Some(paddr) => alloc.start() <= paddr && paddr + 8 <= alloc.end(),
        None => false,
    }
}

/// Number of events, from event `k` up to `n`, that can be stored one after
/// the other before one cannot.
pub open spec fn deliverable(p: Process, alloc: PageAllocator, buffer: u64, n: int, k: int) -> int
    decreases n - k,
{
    if k < 0 || k >= n || !event_fits(p, alloc, buffer, k) {
        k
    } else {
        deliverable(p, alloc, buffer, n, k + 1)
    }
}

/// The memory after the first `k` events of `events` have been stored one
/// after the other from `buffer` on.
pub open spec fn delivered(
    p: Process,
    alloc: PageAllocator,
    buffer: u64,
    events: Seq<Event>,
    k: int,
) -> Seq<u8>
    decreases k,
{
    if k <= 0 {
        alloc.memory()
    } else {
        crate::page::written(
            delivered(p, alloc, buffer, events, k - 1),
            p.user_addr(Process::offset(buffer, 8 * (k - 1)))->0 - alloc.start(),
            event_bytes(events[k - 1]),
        )
    }
}

/// The bytes of the event `e`.
fn bytes_of(e: Event) -> (r: Vec<u8>)
    ensures
        r@ == event_bytes(e),
{
    let kind = e.event_type.val();
    let mut r: Vec<u8> = Vec::new();
    r.push((kind % 256) as u8);
    r.push((kind / 256) as u8);
    r.push((e.code % 256) as u8);
    r.push((e.code / 256) as u8);
    r.push((e.value % 256) as u8);
    r.push((e.value / 256 % 256) as u8);
    r.push((e.value / 65536 % 256) as u8);
    r.push((e.value / 16777216) as u8);
    proof {
        assert(r@ =~= event_bytes(e));
    }
    r
}

/// Ends a call for pending events. For a process that runs without address
/// translation nothing is done. Else the events of `events`, `max` of them
/// at most, are taken from the queue and stored in the memory of the
/// process with its frame at `frame`, eight bytes each from `buffer` on,
/// until one of them cannot be stored; the process finds the number of
/// events that were stored in its return register.
pub fn deliver_events(
    events: &mut VecDeque<Event>,
    table: &mut ProcessTable,
    alloc: &mut PageAllocator,
    frame: u64,
    buffer: u64,
    max: u64,
)
    requires
        old(table).wf(),
        old(alloc).wf(),
    ensures
        final(table).wf(),
        final(table).same_frame(*old(table)),
        final(alloc).wf(),
        final(alloc).start() == old(alloc).start(),
        final(alloc).pages() == old(alloc).pages(),
        !has_frame(old(table).procs(), frame) || !crate::cpu::translation_on(
            old(table).procs()[frame_index(old(table).procs(), frame)].frame.satp,
        ) ==> {
            &&& final(table).procs() == old(table).procs()
            &&& final(alloc).memory() == old(alloc).memory()
            &&& final(events)@ == old(events)@
        },
        has_frame(old(table).procs(), frame) && crate::cpu::translation_on(
            old(table).procs()[frame_index(old(table).procs(), frame)].frame.satp,
        ) ==> {
            let i = frame_index(old(table).procs(), frame);
            let p = old(table).procs()[i];
            let n = at_most(old(events)@.len(), max);
            let count = deliverable(p, *old(alloc), buffer, n, 0);
            &&& frame_changed(
                old(table).procs(),
                final(table).procs(),
                i,
                replied(p.frame@, count as u64),
            )
            &&& final(events)@ == old(events)@.skip(count)
            &&& final(alloc).memory() == delivered(p, *old(alloc), buffer, old(events)@, count)
        },
{
    let i = match table.find_frame(frame) {
        Some(i) => i,
        None => {
            return ;
        },
    };
    if table.get(i).frame.satp >> 60 == 0 {
        return ;
    }
    let ghost p = table.procs()[i as int];
    let ghost queued = events@;
    let available = events.len();
    let num: usize = if (available as u64) < max {
        available
    } else {
        max as usize
    };
    let mut k: usize = 0;
    let mut vaddr: u64 = buffer;
    let mut stop = false;
    proof {
        assert(events@ =~= queued.skip(0));
    }
    while k < num && !stop
        invariant
            k <= num,
            num == at_most(queued.len(), max),
            queued == old(events)@,
            i < table.procs().len(),
            table.wf(),
            *table == *old(table),
            table.procs()[i as int] == p,
            alloc.wf(),
            alloc.start() == old(alloc).start(),
            alloc.pages() == old(alloc).pages(),
            alloc.memory().len() == old(alloc).memory().len(),
            events@ == queued.skip(k as int),
            vaddr == Process::offset(buffer, 8 * k),
            alloc.memory() == delivered(p, *old(alloc), buffer, queued, k as int),
            stop ==> deliverable(p, *old(alloc), buffer, num as int, 0) == k,
            !stop ==> deliverable(p, *old(alloc), buffer, num as int, 0) == deliverable(
                p,
                *old(alloc),
                buffer,
                num as int,
                k as int,
            ),
        decreases num - k, !stop as int,
    {
        let ok = match table.get(i).translate(vaddr) {
            Some(paddr) => {
                let e = events[0];
                let bytes = bytes_of(e);
                proof {
                    assert(e == queued[k as int]);
                }
                alloc.store(paddr, &bytes)
            },
            None => false,
        };
        proof {
            assert(ok == event_fits(p, *old(alloc), buffer, k as int));
        }
        if ok {
            let _ = events.pop_front();
            proof {
                assert(events@ =~= queued.skip(k + 1));
            }
            k = k + 1;
            vaddr = vaddr.wrapping_add(8);
        } else {
            stop = true;
        }
    }
    table.set_reg(i, gp(Registers::A0), k as u64);
}

/// Where a process finds the frame buffer of a display in its address
/// space.
pub const FRAMEBUFFER_ADDR: u64 = 0x3000_0000;

/// Number of whole pages that the picture of the display `d` fills, at four
/// bytes for each pixel.
pub open spec fn frame_pages(d: Device) -> int {
    (d.width * d.height * 4) / 4096
}

/// The mappings that show the first `n` pages of the frame buffer of `d` to
/// a process: page by page from `FRAMEBUFFER_ADDR` on, for a user to read
/// and write.
pub open spec fn frame_plan(d: Device, n: int) -> Seq<Mapping> {
    Seq::new(
        n as nat,
        |k: int|
            Mapping {
                vaddr: Process::offset(FRAMEBUFFER_ADDR, 4096 * k),
                paddr: Process::offset(d.framebuffer, 4096 * k),
                bits: 22,
            },
    )
}

/// Ends a call for the frame buffer of the display `d`. A process that runs
/// with address translation gets the pages of the frame buffer mapped into
/// its address space; for the tables that this may take, `alloc` has to
/// have two free pages for each page of the frame buffer, else nothing is
/// done and the result is false. The process with its frame at `frame` then
/// finds `FRAMEBUFFER_ADDR` in its return register.
pub fn show_framebuffer(
    table: &mut ProcessTable,
    alloc: &mut PageAllocator,
    frame: u64,
    d: &Device,
) -> (shown: bool)
    requires
        old(table).wf(),
        old(alloc).wf(),
    ensures
        final(table).wf(),
        final(table).same_frame(*old(table)),
        final(alloc).wf(),
        final(alloc).start() == old(alloc).start(),
        final(alloc).num_pages() == old(alloc).num_pages(),
        final(table).procs().len() == old(table).procs().len(),
        shown == (has_frame(old(table).procs(), frame) && (crate::cpu::translation_on(
            old(table).procs()[frame_index(old(table).procs(), frame)].frame.satp,
        ) ==> old(alloc).free_pages() >= 2 * frame_pages(*d))),
        !shown ==> final(table).procs() == old(table).procs() && *final(alloc) == *old(alloc),
        shown ==> {
            let i = frame_index(old(table).procs(), frame);
            let p = old(table).procs()[i];
            let q = final(table).procs()[i];
            let n = if crate::cpu::translation_on(p.frame.satp) {
                frame_pages(*d)
            } else {
                0
            };
            &&& forall|j: int|
                0 <= j < old(table).procs().len() && j != i ==> #[trigger] final(table).procs()[j]
                    == old(table).procs()[j]
            &&& q.with_frame(Process { root: q.root, ..p }, replied(p.frame@, FRAMEBUFFER_ADDR))
            &&& plan_built(p.root, q.root, *old(alloc), frame_plan(*d, n), n)
            &&& final(alloc).grown_from(*old(alloc), tables_for(p.root, frame_plan(*d, n), n))
        },
{
    let i = match table.find_frame(frame) {
        Some(i) => i,
        None => {
            return false;
        },
    };
    let ghost p = table.procs()[i as int];
    let mut plan: Vec<Mapping> = Vec::new();
    if table.get(i).frame.satp >> 60 != 0 {
        let width: u64 = d.width as u64;
        let height: u64 = d.height as u64;
        proof {
            assert(width * height <= 0xffff_ffff * 0xffff_ffff) by (nonlinear_arith)
                requires
                    width <= 0xffff_ffff,
                    height <= 0xffff_ffff,
            ;
        }
        let pages: u64 = (width * height) / 1024;
        let free = alloc.count_free();
        if pages > (free / 2) as u64 {
            return false;
        }
        let mut k: u64 = 0;
        let mut vaddr: u64 = FRAMEBUFFER_ADDR;
        let mut paddr: u64 = d.framebuffer;
        while k < pages
            invariant
                k <= pages,
                pages == frame_pages(*d),
                vaddr == Process::offset(FRAMEBUFFER_ADDR, 4096 * k),
                paddr == Process::offset(d.framebuffer, 4096 * k),
                plan@ == frame_plan(*d, k as int),
                plan@.len() == k,
                2 * pages <= alloc.free_pages(),
            decreases pages - k,
        {
            plan.push(Mapping { vaddr, paddr, bits: 22 });
            proof {
                assert(plan@ =~= frame_plan(*d, k + 1));
            }
            k = k + 1;
            vaddr = vaddr.wrapping_add(4096);
            paddr = paddr.wrapping_add(4096);
        }
    }
    proof {
        assert(plan@ =~= frame_plan(*d, plan@.len() as int));
        assert(22u64 & 0xe != 0) by (bit_vector);
        crate::page::lemma_taken_count_bound(alloc.pages(), alloc.num_pages());
    }
    table.map_into(i, alloc, &plan);
    table.set_reg(i, gp(Registers::A0), FRAMEBUFFER_ADDR);
    true
}

} // verus!
