//! The trap dispatcher.
//!
//! Every exception, interrupt and system call of a hardware thread enters
//! the kernel at one point, with the program counter and the address that
//! were saved, the cause, and the frame that was running. `m_trap`
//! classifies the cause, makes the state transitions that belong to it, and
//! answers with what the trap entry has to do next: where the interrupted
//! frame goes on, whether the timer is set again, which frame is switched
//! into, and what work is left for the devices.

use crate::page::{release_all, PageAllocator};
use crate::process::{delete_process, frame_index, has_frame, Process, ProcessTable};
use crate::sched::{chosen_frame, schedule, scheduled, NO_CHANGE};
use crate::syscall::{do_syscall, lemma_pid_index, syscall_effect, SyscallAction};
use vstd::prelude::*;

verus! {

/// Cause number of a software interrupt.
pub const SOFTWARE_INTERRUPT: u64 = 3;

/// Cause number of the timer interrupt.
pub const TIMER_INTERRUPT: u64 = 7;

/// Cause number of an interrupt from the interrupt controller.
pub const EXTERNAL_INTERRUPT: u64 = 11;

pub const ILLEGAL_INSTRUCTION: u64 = 2;

pub const BREAKPOINT: u64 = 3;

pub const STORE_ACCESS_FAULT: u64 = 7;

pub const ECALL_USER: u64 = 8;

pub const ECALL_SUPERVISOR: u64 = 9;

pub const ECALL_MACHINE: u64 = 11;

pub const INSTRUCTION_PAGE_FAULT: u64 = 12;

pub const LOAD_PAGE_FAULT: u64 = 13;

pub const STORE_PAGE_FAULT: u64 = 15;

/// What is left to do outside the kernel core after a trap.
#[derive(Debug)]
pub enum TrapWork {
    /// Nothing.
    Nothing,
    /// An interrupt is pending at the interrupt controller: claim it, hand
    /// it to its device and complete it.
    Claim,
    /// What the system call left to do.
    Syscall(SyscallAction),
    /// The cause is none that the kernel handles: the kernel stops.
    Fatal,
}

/// What the trap entry has to do after `m_trap`.
#[derive(Debug)]
pub struct TrapOutcome {
    /// Program counter at which the interrupted frame goes on, if it does.
    pub return_pc: u64,
    /// The timer has to be set to the next preemption.
    pub rearm: bool,
    /// The frame to switch into; `NO_CHANGE` where the scheduler was not
    /// asked or chose none, in which case the hardware thread goes on with
    /// the frame it was running.
    pub frame: u64,
    /// What is left to do outside.
    pub work: TrapWork,
}

/// The cause is that of an interrupt: its highest bit is set.
pub open spec fn is_async(cause: u64) -> bool {
    cause >= 0x8000_0000_0000_0000
}

/// The number of the cause: its low twelve bits.
pub open spec fn cause_number(cause: u64) -> u64 {
    (cause % 4096) as u64
}

/// The cause is a fault that ends the process: an illegal instruction, an
/// access fault on a store, or a page fault.
pub open spec fn is_fatal_fault(cause: u64) -> bool {
    let n = cause_number(cause);
    !is_async(cause) && (n == ILLEGAL_INSTRUCTION || n == STORE_ACCESS_FAULT || n
        == INSTRUCTION_PAGE_FAULT || n == LOAD_PAGE_FAULT || n == STORE_PAGE_FAULT)
}

/// The cause is a system call, from whichever privilege mode.
pub open spec fn is_ecall(cause: u64) -> bool {
    let n = cause_number(cause);
    !is_async(cause) && (n == ECALL_USER || n == ECALL_SUPERVISOR || n == ECALL_MACHINE)
}

/// The cause is one that asks the scheduler.
pub open spec fn reschedules(cause: u64) -> bool {
    ||| is_async(cause) && cause_number(cause) == TIMER_INTERRUPT
    ||| is_fatal_fault(cause)
    ||| is_ecall(cause)
}

/// The processes after the scheduler was asked with the table in the state
/// `procs`.
pub open spec fn after_schedule(locked: bool, procs: Seq<Process>, now: u64) -> Seq<Process> {
    if locked {
        procs
    } else {
        scheduled(procs, now)
    }
}

/// What the scheduler answered when it was asked with the table in the
/// state `procs`.
pub open spec fn schedule_answer(locked: bool, procs: Seq<Process>, now: u64) -> u64 {
    if locked {
        NO_CHANGE
    } else {
        chosen_frame(procs, now)
    }
}

/// The processes of the table before the scheduler was asked: what the
/// cause itself did to the processes `before`.
pub open spec fn handled(
    before: Seq<Process>,
    mid: Seq<Process>,
    alloc_before: PageAllocator,
    alloc_after: PageAllocator,
    epc: u64,
    cause: u64,
    frame: u64,
    now: u64,
    work: TrapWork,
) -> bool {
    if is_fatal_fault(cause) {
        &&& work is Nothing
        &&& alloc_after.memory() == alloc_before.memory()
        &&& if has_frame(before, frame) {
            let i = frame_index(before, frame);
            &&& mid == before.remove(i)
            &&& alloc_after.pages() == release_all(
                alloc_before.start(),
                alloc_before.pages(),
                before[i].owned_pages(),
            )
        } else {
            mid == before && alloc_after.pages() == alloc_before.pages()
        }
    } else if is_ecall(cause) {
        &&& work matches TrapWork::Syscall(action)
        &&& if has_frame(before, frame) {
            syscall_effect(
                before,
                mid,
                alloc_before,
                alloc_after,
                frame_index(before, frame),
                epc,
                now,
                action,
            )
        } else {
            action is NoProcess && mid == before && alloc_after == alloc_before
        }
    } else {
        &&& mid == before
        &&& alloc_after == alloc_before
        &&& if is_async(cause) {
            if cause_number(cause) == EXTERNAL_INTERRUPT {
                work is Claim
            } else if cause_number(cause) == SOFTWARE_INTERRUPT || cause_number(cause)
                == TIMER_INTERRUPT {
                work is Nothing
            } else {
                work is Fatal
            }
        } else if cause_number(cause) == BREAKPOINT {
            work is Nothing
        } else {
            work is Fatal
        }
    }
}

/// Where the interrupted frame goes on: behind a breakpoint instruction,
/// at the interrupted instruction otherwise.
pub open spec fn resume_at(epc: u64, cause: u64) -> u64 {
    if !is_async(cause) && cause_number(cause) == BREAKPOINT {
        if epc + 2 > u64::MAX {
            (epc + 2 - 0x1_0000_0000_0000_0000) as u64
        } else {
            (epc + 2) as u64
        }
    } else {
        epc
    }
}

/// Handles the trap with the cause `cause` that interrupted the frame at
/// `frame` at the program counter `epc`, at the time `now`.
///
/// A timer interrupt asks the scheduler. A fault of the running process
/// deletes that process and asks the scheduler. A system call is served and
/// then the scheduler is asked. In these cases the timer has to be set
/// again, and the frame that the scheduler chose is switched into. A
/// breakpoint goes on behind the breakpoint instruction; a software
/// interrupt goes on where it struck; an external interrupt leaves the
/// claim to the caller. Any other cause is fatal for the kernel. `tval`,
/// `hart` and `status` are not looked at.
pub fn m_trap(
    table: &mut ProcessTable,
    alloc: &mut PageAllocator,
    epc: u64,
    tval: u64,
    cause: u64,
    hart: u64,
    status: u64,
    frame: u64,
    now: u64,
) -> (out: TrapOutcome)
    requires
        old(table).wf(),
        old(alloc).wf(),
    ensures
        final(table).wf(),
        final(table).same_frame(*old(table)),
        final(alloc).wf(),
        final(alloc).start() == old(alloc).start(),
        final(alloc).num_pages() == old(alloc).num_pages(),
        out.return_pc == resume_at(epc, cause),
        out.rearm == reschedules(cause),
        exists|mid: Seq<Process>|
            {
                &&& #[trigger] handled(
                    old(table).procs(),
                    mid,
                    *old(alloc),
                    *final(alloc),
                    epc,
                    cause,
                    frame,
                    now,
                    out.work,
                )
                &&& if reschedules(cause) {
                    &&& final(table).procs() == after_schedule(old(table).locked(), mid, now)
                    &&& out.frame == schedule_answer(old(table).locked(), mid, now)
                } else {
                    final(table).procs() == mid && out.frame == NO_CHANGE
                }
            },
{
    let asynchronous = (cause >> 63) & 1 == 1;
    let cause_num = cause & 0xfff;
    proof {
        assert(((cause >> 63) & 1 == 1) == (cause >= 0x8000_0000_0000_0000) && cause & 0xfff
            == cause % 4096) by (bit_vector);
    }
    if asynchronous {
        if cause_num == SOFTWARE_INTERRUPT {
            proof {
                assert(handled(
                    old(table).procs(),
                    table.procs(),
                    *old(alloc),
                    *alloc,
                    epc,
                    cause,
                    frame,
                    now,
                    TrapWork::Nothing,
                ));
            }
            TrapOutcome { return_pc: epc, rearm: false, frame: NO_CHANGE, work: TrapWork::Nothing }
        } else if cause_num == TIMER_INTERRUPT {
            let new_frame = schedule(table, now);
            proof {
                assert(handled(
                    old(table).procs(),
                    old(table).procs(),
                    *old(alloc),
                    *alloc,
                    epc,
                    cause,
                    frame,
                    now,
                    TrapWork::Nothing,
                ));
            }
            TrapOutcome { return_pc: epc, rearm: true, frame: new_frame, work: TrapWork::Nothing }
        } else if cause_num == EXTERNAL_INTERRUPT {
            proof {
                assert(handled(
                    old(table).procs(),
                    table.procs(),
                    *old(alloc),
                    *alloc,
                    epc,
                    cause,
                    frame,
                    now,
                    TrapWork::Claim,
                ));
            }
            TrapOutcome { return_pc: epc, rearm: false, frame: NO_CHANGE, work: TrapWork::Claim }
        } else {
            proof {
                assert(handled(
                    old(table).procs(),
                    table.procs(),
                    *old(alloc),
                    *alloc,
                    epc,
                    cause,
                    frame,
                    now,
                    TrapWork::Fatal,
                ));
            }
            TrapOutcome { return_pc: epc, rearm: false, frame: NO_CHANGE, work: TrapWork::Fatal }
        }
    } else if cause_num == ILLEGAL_INSTRUCTION || cause_num == STORE_ACCESS_FAULT || cause_num
        == INSTRUCTION_PAGE_FAULT || cause_num == LOAD_PAGE_FAULT || cause_num == STORE_PAGE_FAULT {
        match table.find_frame(frame) {
            Some(i) => {
                let pid = table.get(i).pid;
                proof {
                    lemma_pid_index(*table, i as int);
                }
                delete_process(table, alloc, pid);
            },
            None => {},
        }
        let ghost mid = table.procs();
        let new_frame = schedule(table, now);
        proof {
            assert(handled(
                old(table).procs(),
                mid,
                *old(alloc),
                *alloc,
                epc,
                cause,
                frame,
                now,
                TrapWork::Nothing,
            ));
        }
        TrapOutcome { return_pc: epc, rearm: true, frame: new_frame, work: TrapWork::Nothing }
    } else if cause_num == BREAKPOINT {
        proof {
            assert(handled(
                old(table).procs(),
                table.procs(),
                *old(alloc),
                *alloc,
                epc,
                cause,
                frame,
                now,
                TrapWork::Nothing,
            ));
        }
        TrapOutcome {
            return_pc: epc.wrapping_add(2),
            rearm: false,
            frame: NO_CHANGE,
            work: TrapWork::Nothing,
        }
    } else if cause_num == ECALL_USER || cause_num == ECALL_SUPERVISOR || cause_num
        == ECALL_MACHINE {
        let action = do_syscall(table, alloc, epc, frame, now);
        let ghost mid = table.procs();
        let new_frame = schedule(table, now);
        let work = TrapWork::Syscall(action);
        proof {
            assert(handled(
                old(table).procs(),
                mid,
                *old(alloc),
                *alloc,
                epc,
                cause,
                frame,
                now,
                work,
            ));
        }
        TrapOutcome { return_pc: epc, rearm: true, frame: new_frame, work }
    } else {
        proof {
            assert(handled(
                old(table).procs(),
                table.procs(),
                *old(alloc),
                *alloc,
                epc,
                cause,
                frame,
                now,
                TrapWork::Fatal,
            ));
        }
        TrapOutcome { return_pc: epc, rearm: false, frame: NO_CHANGE, work: TrapWork::Fatal }
    }
}

} // verus!
