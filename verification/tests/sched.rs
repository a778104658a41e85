use rvkernel::page::PageAllocator;
use rvkernel::process::{
    add_kernel_process, get_by_pid, set_running, set_sleeping, set_waiting, ProcessState,
    ProcessTable,
};
use rvkernel::sched::{schedule, NO_CHANGE};

const START: u64 = 0x8010_0000;

fn kernel(processes: u16) -> (PageAllocator, ProcessTable) {
    let mut a = PageAllocator::new(START, 18 * processes as usize + 4);
    let mut t = ProcessTable::new(0);
    for k in 0..processes {
        assert_eq!(add_kernel_process(&mut t, &mut a, 0x1000 * (k as u64 + 1)), k + 1);
    }
    (a, t)
}

fn frame_of(t: &ProcessTable, pid: u16) -> u64 {
    get_by_pid(t, pid).unwrap().get_frame_address()
}

#[test]
fn empty_table_schedules_nothing() {
    let (_a, mut t) = kernel(0);
    assert_eq!(schedule(&mut t, 0), NO_CHANGE);
    assert_eq!(NO_CHANGE, 0);
}

#[test]
fn single_process_is_chosen_every_time() {
    let (_a, mut t) = kernel(1);
    let f = frame_of(&t, 1);
    assert_eq!(schedule(&mut t, 0), f);
    assert_eq!(schedule(&mut t, 0), f);
}

// k running processes are visited once each by k calls.
#[test]
fn round_robin_visits_every_running_process_once() {
    let (_a, mut t) = kernel(4);
    let frames: Vec<u64> = (1..=4).map(|p| frame_of(&t, p)).collect();
    let mut seen = Vec::new();
    for _ in 0..4 {
        seen.push(schedule(&mut t, 0));
    }
    // the table turns first: the second process is the first to be chosen
    assert_eq!(seen, vec![frames[1], frames[2], frames[3], frames[0]]);
    // the next round visits them in the same order
    for k in 0..4 {
        assert_eq!(schedule(&mut t, 0), seen[k]);
    }
}

#[test]
fn waiting_and_sleeping_processes_are_passed_by() {
    let (_a, mut t) = kernel(4);
    set_waiting(&mut t, 2);
    set_sleeping(&mut t, 3, 100, 1000);
    let f1 = frame_of(&t, 1);
    let f4 = frame_of(&t, 4);
    assert_eq!(schedule(&mut t, 1000), f4);
    assert_eq!(schedule(&mut t, 1050), f1);
    assert_eq!(schedule(&mut t, 1099), f4);
    assert_eq!(*get_by_pid(&t, 3).unwrap().get_state(), ProcessState::Sleeping);
    assert_eq!(*get_by_pid(&t, 2).unwrap().get_state(), ProcessState::Waiting);
}

#[test]
fn a_sleeper_whose_time_has_come_is_woken_and_chosen() {
    let (_a, mut t) = kernel(2);
    set_sleeping(&mut t, 2, 100, 1000);
    let f1 = frame_of(&t, 1);
    let f2 = frame_of(&t, 2);
    assert_eq!(schedule(&mut t, 1099), f1);
    // the wake time itself counts as elapsed
    assert_eq!(schedule(&mut t, 1100), f2);
    assert_eq!(*get_by_pid(&t, 2).unwrap().get_state(), ProcessState::Running);
    assert_eq!(schedule(&mut t, 0), f1);
    assert_eq!(schedule(&mut t, 0), f2);
}

#[test]
fn no_runnable_process_means_no_change() {
    let (_a, mut t) = kernel(3);
    set_waiting(&mut t, 1);
    set_waiting(&mut t, 2);
    set_sleeping(&mut t, 3, 10, 0);
    assert_eq!(schedule(&mut t, 9), NO_CHANGE);
    // the table is as it was: first in line is still the first process
    assert_eq!(t.get(0).get_pid(), 1);
    assert_eq!(t.get(1).get_pid(), 2);
    assert_eq!(t.get(2).get_pid(), 3);
    set_running(&mut t, 2);
    assert_eq!(schedule(&mut t, 9), frame_of(&t, 2));
    assert_eq!(t.get(0).get_pid(), 2);
}

// the timer strikes while the lock of the table is held.
#[test]
fn held_lock_means_no_change() {
    let (_a, mut t) = kernel(3);
    assert!(t.try_lock());
    assert_eq!(schedule(&mut t, 0), NO_CHANGE);
    assert_eq!(schedule(&mut t, 0), NO_CHANGE);
    // nothing was turned
    assert_eq!((t.get(0).get_pid(), t.get(1).get_pid(), t.get(2).get_pid()), (1, 2, 3));
    // the lock is still held by its holder
    assert!(!t.try_lock());
    t.unlock();
    assert_eq!(schedule(&mut t, 0), frame_of(&t, 2));
    // the scheduler has given the lock back
    assert!(t.try_lock());
}

// set_running on a running process changes no schedule.
#[test]
fn set_running_on_a_running_process_changes_nothing() {
    let (_a, mut t) = kernel(3);
    let (_b, mut u) = kernel(3);
    assert!(set_running(&mut u, 2));
    assert!(set_running(&mut u, 2));
    for _ in 0..3 {
        assert_eq!(schedule(&mut t, 5), schedule(&mut u, 5));
    }
    for k in 0..3 {
        assert_eq!(t.get(k).get_pid(), u.get(k).get_pid());
        assert_eq!(*t.get(k).get_state(), *u.get(k).get_state());
    }
}

#[test]
fn rotate_and_promote() {
    let (_a, mut t) = kernel(3);
    t.rotate();
    assert_eq!((t.get(0).get_pid(), t.get(1).get_pid(), t.get(2).get_pid()), (2, 3, 1));
    set_waiting(&mut t, 2);
    t.promote();
    assert_eq!(*t.get(0).get_state(), ProcessState::Running);
}
