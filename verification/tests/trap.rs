use rvkernel::page::PageAllocator;
use rvkernel::process::{add_kernel_process, get_by_pid, ProcessState, ProcessTable};
use rvkernel::sched::NO_CHANGE;
use rvkernel::syscall::{syscall_sleep, syscall_yield, SyscallAction};
use rvkernel::trap::{m_trap, TrapOutcome, TrapWork};

const START: u64 = 0x8010_0000;
const ASYNC: u64 = 1 << 63;

fn kernel(processes: u16) -> (PageAllocator, ProcessTable, Vec<u64>) {
    let mut a = PageAllocator::new(START, 18 * processes as usize + 4);
    let mut t = ProcessTable::new(0);
    let mut frames = Vec::new();
    for k in 0..processes {
        assert_eq!(add_kernel_process(&mut t, &mut a, 0x1000 * (k as u64 + 1)), k + 1);
        frames.push(t.get(k as usize).get_frame_address());
    }
    (a, t, frames)
}

fn trap(t: &mut ProcessTable, a: &mut PageAllocator, epc: u64, cause: u64, frame: u64, now: u64) -> TrapOutcome {
    m_trap(t, a, epc, 0, cause, 0, 0, frame, now)
}

#[test]
fn timer_interrupt_asks_the_scheduler_and_sets_the_timer_again() {
    let (mut a, mut t, f) = kernel(3);
    let out = trap(&mut t, &mut a, 0x1004, ASYNC | 7, f[0], 0);
    assert_eq!(out.return_pc, 0x1004);
    assert!(out.rearm);
    assert_eq!(out.frame, f[1]);
    assert!(matches!(out.work, TrapWork::Nothing));
    let out = trap(&mut t, &mut a, 0x2004, ASYNC | 7, f[1], 0);
    assert_eq!(out.frame, f[2]);
    let out = trap(&mut t, &mut a, 0x3004, ASYNC | 7, f[2], 0);
    assert_eq!(out.frame, f[0]);
}

// a timer interrupt while the lock of the table is held.
#[test]
fn timer_interrupt_under_a_held_lock_changes_nothing() {
    let (mut a, mut t, f) = kernel(2);
    assert!(t.try_lock());
    let out = trap(&mut t, &mut a, 0x1004, ASYNC | 7, f[0], 0);
    assert_eq!(out.frame, NO_CHANGE);
    assert_eq!(out.return_pc, 0x1004);
    assert!(out.rearm);
    assert_eq!(t.get(0).get_pid(), 1);
    assert_eq!(t.get(1).get_pid(), 2);
    assert_eq!(t.len(), 2);
    assert!(!t.try_lock());
}

#[test]
fn software_and_external_interrupts_go_on_where_they_struck() {
    let (mut a, mut t, f) = kernel(2);
    let out = trap(&mut t, &mut a, 0x1004, ASYNC | 3, f[0], 0);
    assert_eq!((out.return_pc, out.rearm, out.frame), (0x1004, false, NO_CHANGE));
    assert!(matches!(out.work, TrapWork::Nothing));
    let out = trap(&mut t, &mut a, 0x1004, ASYNC | 11, f[0], 0);
    assert_eq!((out.return_pc, out.rearm, out.frame), (0x1004, false, NO_CHANGE));
    assert!(matches!(out.work, TrapWork::Claim));
    assert_eq!(t.get(0).get_pid(), 1);
}

#[test]
fn faults_delete_the_process_and_go_on_with_another() {
    for cause in [2u64, 7, 12, 13, 15] {
        let (mut a, mut t, f) = kernel(3);
        let free = a.count_free();
        let out = trap(&mut t, &mut a, 0x1004, cause, f[0], 0);
        assert_eq!(t.len(), 2);
        assert!(get_by_pid(&t, 1).is_none());
        assert_eq!(a.count_free(), free + 18);
        assert!(out.rearm);
        // the table, now (2, 3), turns once: 3 is chosen
        assert_eq!(out.frame, f[2]);
        assert!(matches!(out.work, TrapWork::Nothing));
    }
}

#[test]
fn fault_of_the_last_process_leaves_nothing_to_run() {
    let (mut a, mut t, f) = kernel(1);
    let out = trap(&mut t, &mut a, 0x1004, 13, f[0], 0);
    assert_eq!(t.len(), 0);
    assert_eq!(out.frame, NO_CHANGE);
    assert_eq!(a.count_free(), 22);
}

#[test]
fn fault_of_an_unknown_frame_deletes_nothing() {
    let (mut a, mut t, f) = kernel(2);
    let out = trap(&mut t, &mut a, 0x1004, 15, 0x4444, 0);
    assert_eq!(t.len(), 2);
    assert_eq!(out.frame, f[1]);
}

#[test]
fn breakpoint_goes_on_behind_the_instruction() {
    let (mut a, mut t, f) = kernel(2);
    let out = trap(&mut t, &mut a, 0x1004, 3, f[0], 0);
    assert_eq!((out.return_pc, out.rearm, out.frame), (0x1006, false, NO_CHANGE));
    assert!(matches!(out.work, TrapWork::Nothing));
    assert_eq!(t.get(0).get_pid(), 1);
    let out = trap(&mut t, &mut a, u64::MAX, 3, f[0], 0);
    assert_eq!(out.return_pc, 1);
}

#[test]
fn system_calls_are_served_from_every_mode_and_reschedule() {
    for cause in [8u64, 9, 11] {
        let (mut a, mut t, f) = kernel(2);
        let call = syscall_sleep(100);
        let mut regs = [0u64; 32];
        regs[17] = call.number;
        regs[10] = call.arg0;
        assert!(t.store_registers(f[0], &regs, &[0; 32], 0x1000));
        let out = trap(&mut t, &mut a, 0x1000, cause, f[0], 50);
        assert!(matches!(out.work, TrapWork::Syscall(SyscallAction::Done)));
        assert!(out.rearm);
        assert_eq!(out.frame, f[1]);
        let p = get_by_pid(&t, 1).unwrap();
        assert_eq!(*p.get_state(), ProcessState::Sleeping);
        assert_eq!(p.get_sleep_until(), 150);
        assert_eq!(p.get_program_counter(), 0x1004);
        // the sleeper is passed by until its time has come
        let out = trap(&mut t, &mut a, 0x2000, ASYNC | 7, f[1], 149);
        assert_eq!(out.frame, f[1]);
        let out = trap(&mut t, &mut a, 0x2000, ASYNC | 7, f[1], 150);
        assert_eq!(out.frame, f[0]);
    }
}

#[test]
fn yield_hands_the_processor_on() {
    let (mut a, mut t, f) = kernel(2);
    let call = syscall_yield();
    let mut regs = [0u64; 32];
    regs[17] = call.number;
    assert!(t.store_registers(f[0], &regs, &[0; 32], 0x1000));
    let out = trap(&mut t, &mut a, 0x1000, 8, f[0], 0);
    assert_eq!(out.frame, f[1]);
    assert_eq!(get_by_pid(&t, 1).unwrap().get_program_counter(), 0x1004);
    assert_eq!(*get_by_pid(&t, 1).unwrap().get_state(), ProcessState::Running);
}

#[test]
fn other_causes_are_fatal() {
    let (mut a, mut t, f) = kernel(2);
    for cause in [0u64, 1, 4, 5, 6, 10, 14, 16, 0xfff, ASYNC, ASYNC | 1, ASYNC | 5, ASYNC | 12] {
        let out = trap(&mut t, &mut a, 0x1004, cause, f[0], 0);
        assert!(matches!(out.work, TrapWork::Fatal), "cause {:x}", cause);
        assert!(!out.rearm);
        assert_eq!(out.frame, NO_CHANGE);
        assert_eq!(out.return_pc, 0x1004);
    }
    assert_eq!(t.len(), 2);
    assert_eq!(t.get(0).get_pid(), 1);
}

#[test]
fn only_the_low_twelve_bits_and_the_highest_bit_of_the_cause_count() {
    let (mut a, mut t, f) = kernel(2);
    let out = trap(&mut t, &mut a, 0x1004, ASYNC | 0x7000 | 7, f[0], 0);
    assert!(out.rearm);
    assert_eq!(out.frame, f[1]);
    let out = trap(&mut t, &mut a, 0x1004, 0x1000 | 3, f[0], 0);
    assert_eq!(out.return_pc, 0x1006);
}
