use rvkernel::elf::LoadErrors;
use rvkernel::fs::Inode;
use rvkernel::mmu::virt_to_phys;
use rvkernel::page::{PageAllocator, PAGE_SIZE};
use rvkernel::process::{
    add_kernel_process, add_process_default, get_by_pid, FileDescriptor, ProcessState,
    ProcessTable, STACK_ADDR,
};
use rvkernel::console;
use rvkernel::gpu::Device;
use rvkernel::input::{Event, EventType};
use rvkernel::syscall::{
    deliver_events, read_stdin, show_framebuffer, FRAMEBUFFER_ADDR,
    do_syscall, exec_failed, exec_finish, open_finish, syscall_block_read, syscall_execv, syscall_exit,
    syscall_fs_read, syscall_get_pid, syscall_sleep, syscall_yield, Syscall, SyscallAction, FAILED,
};

use std::collections::VecDeque;

const START: u64 = 0x8010_0000;

/// A table with a kernel process (1) and a user process (2).
fn kernel() -> (PageAllocator, ProcessTable, u64, u64) {
    let mut a = PageAllocator::new(START, 512);
    let mut t = ProcessTable::new(0);
    assert_eq!(add_kernel_process(&mut t, &mut a, 0x8000_1000), 1);
    assert_eq!(add_process_default(&mut t, &mut a, START), 2);
    let k = t.get(0).get_frame_address();
    let u = t.get(1).get_frame_address();
    (a, t, k, u)
}

fn issue(t: &mut ProcessTable, frame: u64, call: Syscall) {
    let mut regs = t.load_frame(frame).unwrap().regs;
    regs[17] = call.number;
    regs[10] = call.arg0;
    regs[11] = call.arg1;
    regs[12] = call.arg2;
    regs[13] = call.arg3;
    regs[14] = call.arg4;
    regs[15] = call.arg5;
    let fregs = [0u64; 32];
    assert!(t.store_registers(frame, &regs, &fregs, 0x100));
}

fn call(number: u64, args: [u64; 5]) -> Syscall {
    Syscall { number, arg0: args[0], arg1: args[1], arg2: args[2], arg3: args[3], arg4: args[4], arg5: 0 }
}

fn a0(t: &ProcessTable, frame: u64) -> u64 {
    t.load_frame(frame).unwrap().regs[10]
}

#[test]
fn requests_carry_the_numbers_of_the_calls() {
    assert_eq!(syscall_yield(), call(1, [0; 5]));
    assert_eq!(syscall_exit(), call(93, [0; 5]));
    assert_eq!(syscall_execv(0x1000, 0x2000), call(11, [0x1000, 0x2000, 0, 0, 0]));
    assert_eq!(syscall_fs_read(8, 12, 0x3000, 512, 1024), call(63, [8, 12, 0x3000, 512, 1024]));
    assert_eq!(syscall_block_read(8, 0x3000, 512, 1024), call(180, [8, 0x3000, 512, 1024, 0]));
    assert_eq!(syscall_sleep(10_000), call(10, [10_000, 0, 0, 0, 0]));
    assert_eq!(syscall_get_pid(), call(172, [0; 5]));
    assert_eq!(rvkernel::syscall::putchar(b'x'), call(2, [120, 0, 0, 0, 0]));
    assert_eq!(rvkernel::syscall::sleep(5), call(10, [5, 0, 0, 0, 0]));
    assert_eq!(rvkernel::syscall::get_fb(1), call(1000, [1, 0, 0, 0, 0]));
    assert_eq!(rvkernel::syscall::inv_rect(1, 2, 3, 4, 5), call(1001, [1, 2, 3, 4, 5]));
    assert_eq!(rvkernel::syscall::get_keys(0x1000, 8), call(1002, [0x1000, 8, 0, 0, 0]));
    assert_eq!(rvkernel::syscall::get_abs(0x2000, 9), call(1004, [0x2000, 9, 0, 0, 0]));
    assert_eq!(rvkernel::syscall::get_time(), call(1062, [0; 5]));
}

#[test]
fn a_call_from_no_known_frame_does_nothing() {
    let (mut a, mut t, _k, _u) = kernel();
    assert!(matches!(do_syscall(&mut t, &mut a, 0x100, 0x1234, 0), SyscallAction::NoProcess));
    assert_eq!(t.len(), 2);
}

#[test]
fn every_call_goes_on_behind_the_call_instruction() {
    let (mut a, mut t, k, _u) = kernel();
    issue(&mut t, k, syscall_yield());
    assert!(matches!(do_syscall(&mut t, &mut a, 0x8000_1040, k, 0), SyscallAction::Done));
    let f = t.load_frame(k).unwrap();
    assert_eq!(f.pc, 0x8000_1044);
    assert_eq!(f.regs[10], 0);
    assert_eq!(*get_by_pid(&t, 1).unwrap().get_state(), ProcessState::Running);
    issue(&mut t, k, syscall_yield());
    do_syscall(&mut t, &mut a, u64::MAX - 1, k, 0);
    assert_eq!(t.load_frame(k).unwrap().pc, 2);
}

#[test]
fn exit_deletes_the_caller() {
    let (mut a, mut t, k, u) = kernel();
    let free = a.count_free();
    issue(&mut t, k, syscall_exit());
    assert!(matches!(do_syscall(&mut t, &mut a, 0x100, k, 0), SyscallAction::Done));
    assert_eq!(t.len(), 1);
    assert!(get_by_pid(&t, 1).is_none());
    assert_eq!(a.count_free(), free + 18);
    issue(&mut t, u, call(94, [0; 5]));
    do_syscall(&mut t, &mut a, 0x100, u, 0);
    assert_eq!(t.len(), 0);
    assert_eq!(a.count_free(), 512);
}

#[test]
fn sleep_puts_the_caller_to_sleep_until_its_time() {
    let (mut a, mut t, k, _u) = kernel();
    issue(&mut t, k, syscall_sleep(250));
    assert!(matches!(do_syscall(&mut t, &mut a, 0x100, k, 1000), SyscallAction::Done));
    let p = get_by_pid(&t, 1).unwrap();
    assert_eq!(*p.get_state(), ProcessState::Sleeping);
    assert_eq!(p.get_sleep_until(), 1250);
    assert_eq!(p.get_program_counter(), 0x104);
}

#[test]
fn get_pid_and_time_answer_in_the_return_register() {
    let (mut a, mut t, _k, u) = kernel();
    issue(&mut t, u, syscall_get_pid());
    do_syscall(&mut t, &mut a, 0x100, u, 0);
    assert_eq!(a0(&t, u), 2);
    issue(&mut t, u, call(1062, [0; 5]));
    do_syscall(&mut t, &mut a, 0x100, u, 123_456);
    assert_eq!(a0(&t, u), 123_456);
}

#[test]
fn calls_without_a_service_answer_with_their_constant() {
    let (mut a, mut t, _k, u) = kernel();
    for (number, answer) in [(48u64, FAILED), (66, FAILED), (80, 0)] {
        issue(&mut t, u, call(number, [5, 5, 5, 5, 5]));
        assert!(matches!(do_syscall(&mut t, &mut a, 0x100, u, 0), SyscallAction::Done));
        assert_eq!(a0(&t, u), answer);
    }
    assert_eq!(FAILED, u64::MAX);
}

#[test]
fn unknown_call_is_reported() {
    let (mut a, mut t, _k, u) = kernel();
    issue(&mut t, u, call(4711, [1, 2, 3, 4, 5]));
    match do_syscall(&mut t, &mut a, 0x100, u, 0) {
        SyscallAction::Unknown(n) => assert_eq!(n, 4711),
        other => panic!("{:?}", other),
    }
    assert_eq!(a0(&t, u), 1);
    assert_eq!(t.load_frame(u).unwrap().pc, 0x104);
}

#[test]
fn console_calls_hand_their_work_out() {
    let (mut a, mut t, _k, u) = kernel();
    issue(&mut t, u, call(2, [0x141, 0, 0, 0, 0]));
    match do_syscall(&mut t, &mut a, 0x100, u, 0) {
        SyscallAction::PutChar(c) => assert_eq!(c, 0x41),
        other => panic!("{:?}", other),
    }
    issue(&mut t, u, call(8, [0; 5]));
    assert!(matches!(do_syscall(&mut t, &mut a, 0x100, u, 0), SyscallAction::DumpRegisters));
    // a read from standard input
    issue(&mut t, u, call(63, [0, 0x5000, 16, 0, 0]));
    match do_syscall(&mut t, &mut a, 0x100, u, 0) {
        SyscallAction::ReadStdin { buffer, size } => assert_eq!((buffer, size), (0x5000, 16)),
        other => panic!("{:?}", other),
    }
    assert_eq!(a0(&t, u), 0);
    // a read from another descriptor
    issue(&mut t, u, call(63, [3, 0x5000, 16, 0, 0]));
    assert!(matches!(do_syscall(&mut t, &mut a, 0x100, u, 0), SyscallAction::Done));
    assert_eq!(a0(&t, u), 0);
}

#[test]
fn device_calls_hand_their_work_out() {
    let (mut a, mut t, _k, u) = kernel();
    issue(&mut t, u, call(1000, [1, 0, 0, 0, 0]));
    match do_syscall(&mut t, &mut a, 0x100, u, 0) {
        SyscallAction::Framebuffer { dev } => assert_eq!(dev, 1),
        other => panic!("{:?}", other),
    }
    assert_eq!(a0(&t, u), 0);
    for dev in [0u64, 9] {
        issue(&mut t, u, call(1000, [dev, 0, 0, 0, 0]));
        assert!(matches!(do_syscall(&mut t, &mut a, 0x100, u, 0), SyscallAction::Done));
        assert_eq!(a0(&t, u), 0);
    }
    issue(&mut t, u, call(1001, [1, 10, 20, 30, 40]));
    match do_syscall(&mut t, &mut a, 0x100, u, 0) {
        SyscallAction::InvalidateRect { dev, x, y, width, height } => {
            assert_eq!((dev, x, y, width, height), (1, 10, 20, 30, 40))
        }
        other => panic!("{:?}", other),
    }
    issue(&mut t, u, call(1002, [0x6000, 4, 0, 0, 0]));
    match do_syscall(&mut t, &mut a, 0x100, u, 0) {
        SyscallAction::KeyEvents { buffer, max } => assert_eq!((buffer, max), (0x6000, 4)),
        other => panic!("{:?}", other),
    }
    assert_eq!(a0(&t, u), 0x6000);
    issue(&mut t, u, call(1004, [0x7000, 2, 0, 0, 0]));
    match do_syscall(&mut t, &mut a, 0x100, u, 0) {
        SyscallAction::AbsEvents { buffer, max } => assert_eq!((buffer, max), (0x7000, 2)),
        other => panic!("{:?}", other),
    }
}

#[test]
fn block_read_makes_the_caller_wait() {
    let (mut a, mut t, _k, u) = kernel();
    issue(&mut t, u, syscall_block_read(8, 0x9000, 1024, 2048));
    match do_syscall(&mut t, &mut a, 0x100, u, 0) {
        SyscallAction::BlockOp { dev, buffer, size, offset, write, watcher } => {
            assert_eq!((dev, buffer, size, offset, write, watcher), (8, 0x9000, 1024, 2048, false, 2))
        }
        other => panic!("{:?}", other),
    }
    assert_eq!(*get_by_pid(&t, 2).unwrap().get_state(), ProcessState::Waiting);
}

#[test]
fn write_hands_the_bytes_of_the_caller_to_the_console() {
    let (mut a, mut t, k, u) = kernel();
    let stack = get_by_pid(&t, 2).unwrap().stack;
    assert!(a.store(stack + 8, &vec![b'h', b'i', b'!', b'\n']));
    issue(&mut t, u, call(64, [1, STACK_ADDR + 8, 4, 0, 0]));
    match do_syscall(&mut t, &mut a, 0x100, u, 0) {
        SyscallAction::Print(bytes) => assert_eq!(bytes, vec![b'h', b'i', b'!', b'\n']),
        other => panic!("{:?}", other),
    }
    assert_eq!(a0(&t, u), 4);
    // writing stops at the end of what is mapped; the failed byte is counted
    issue(&mut t, u, call(64, [2, STACK_ADDR + 16 * PAGE_SIZE - 2, 10, 0, 0]));
    match do_syscall(&mut t, &mut a, 0x100, u, 0) {
        SyscallAction::Print(bytes) => assert_eq!(bytes, vec![0, 0]),
        other => panic!("{:?}", other),
    }
    assert_eq!(a0(&t, u), 3);
    // a descriptor that is not open
    issue(&mut t, u, call(64, [5, STACK_ADDR, 10, 0, 0]));
    assert!(matches!(do_syscall(&mut t, &mut a, 0x100, u, 0), SyscallAction::Done));
    assert_eq!(a0(&t, u), 0);
    // without address translation nothing is handed on, and all is counted
    issue(&mut t, k, call(64, [1, stack + 8, 4, 0, 0]));
    assert!(matches!(do_syscall(&mut t, &mut a, 0x100, k, 0), SyscallAction::Done));
    assert_eq!(a0(&t, k), 4);
}

#[test]
fn brk_beyond_the_room_fails_and_takes_nothing() {
    let (mut a, mut t, _k, u) = kernel();
    let free = a.count_free();
    // the break of this process stands at 0: the pages up to the new break
    // would be 0x30001, and there is no room for them
    issue(&mut t, u, call(214, [0x3000_0000, 0, 0, 0, 0]));
    assert!(matches!(do_syscall(&mut t, &mut a, 0x100, u, 0), SyscallAction::Done));
    assert_eq!(a0(&t, u), FAILED);
    let p = get_by_pid(&t, 2).unwrap();
    assert_eq!(p.brk, 0);
    assert_eq!(a.count_free(), free);
    assert_eq!(p.data.pages.len(), 0);
}

#[test]
fn brk_maps_pages_from_the_old_break_on() {
    let mut a = PageAllocator::new(START, 512);
    let mut t = ProcessTable::new(0);
    let image = {
        // one segment of 16 bytes at 0x2000_0000
        let mut b = Vec::new();
        b.extend_from_slice(&0x464c_457fu32.to_le_bytes());
        b.extend_from_slice(&[0u8; 12]);
        b.extend_from_slice(&2u16.to_le_bytes());
        b.extend_from_slice(&0xf3u16.to_le_bytes());
        b.extend_from_slice(&1u32.to_le_bytes());
        b.extend_from_slice(&0x2000_0000u64.to_le_bytes());
        b.extend_from_slice(&64u64.to_le_bytes());
        b.extend_from_slice(&[0u8; 16]);
        b.extend_from_slice(&1u16.to_le_bytes());
        b.extend_from_slice(&[0u8; 6]);
        b.extend_from_slice(&1u32.to_le_bytes());
        b.extend_from_slice(&5u32.to_le_bytes());
        b.extend_from_slice(&120u64.to_le_bytes());
        b.extend_from_slice(&0x2000_0000u64.to_le_bytes());
        b.extend_from_slice(&0x2000_0000u64.to_le_bytes());
        b.extend_from_slice(&16u64.to_le_bytes());
        b.extend_from_slice(&16u64.to_le_bytes());
        b.extend_from_slice(&0x1000u64.to_le_bytes());
        b.extend_from_slice(&[0x13u8; 16]);
        b
    };
    assert_eq!(rvkernel::syscall::exec_func(&mut t, &mut a, &image), Ok(1));
    let u = t.get(0).get_frame_address();
    assert_eq!(t.get(0).brk, 0x2000_1000);
    let free = a.count_free();
    issue(&mut t, u, call(214, [0x2000_2800, 0, 0, 0, 0]));
    assert!(matches!(do_syscall(&mut t, &mut a, 0x100, u, 0), SyscallAction::Done));
    assert_eq!(a0(&t, u), 0x2000_2800);
    let p = t.get(0);
    assert_eq!(p.brk, 0x2000_2800);
    assert_eq!(p.data.pages.len(), 2);
    assert_eq!(virt_to_phys(&p.root, 0x2000_1000), Some(p.data.pages[0]));
    assert_eq!(virt_to_phys(&p.root, 0x2000_2800), Some(p.data.pages[1] + 0x800));
    assert_eq!(a.count_free(), free - 2);
    // a request below the break answers with the break
    issue(&mut t, u, call(214, [0, 0, 0, 0, 0]));
    do_syscall(&mut t, &mut a, 0x100, u, 0);
    assert_eq!(a0(&t, u), 0x2000_2800);
    // a request beyond the room fails
    issue(&mut t, u, call(214, [0x2800_0000, 0, 0, 0, 0]));
    do_syscall(&mut t, &mut a, 0x100, u, 0);
    assert_eq!(a0(&t, u), FAILED);
    assert_eq!(t.get(0).brk, 0x2000_2800);
    // exit releases the heap pages too
    issue(&mut t, u, syscall_exit());
    do_syscall(&mut t, &mut a, 0x100, u, 0);
    assert_eq!(a.count_free(), 512);
}

#[test]
fn execv_reads_the_path_of_the_caller() {
    let (mut a, mut t, k, u) = kernel();
    let stack = get_by_pid(&t, 2).unwrap().stack;
    assert!(a.store(stack + 32, &vec![b'/', b's', b'h', b'e', b'l', b'l', 0, b'x']));
    issue(&mut t, u, syscall_execv(STACK_ADDR + 32, 0));
    match do_syscall(&mut t, &mut a, 0x100, u, 0) {
        SyscallAction::Exec { path } => assert_eq!(path, b"/shell".to_vec()),
        other => panic!("{:?}", other),
    }
    assert_eq!(t.len(), 2);
    // a path that is not mapped fails the call
    issue(&mut t, u, syscall_execv(0x10, 0));
    assert!(matches!(do_syscall(&mut t, &mut a, 0x100, u, 0), SyscallAction::Done));
    assert_eq!(a0(&t, u), FAILED);
    // a kernel process names the path by its physical address
    issue(&mut t, k, syscall_execv(stack + 33, 0));
    match do_syscall(&mut t, &mut a, 0x100, k, 0) {
        SyscallAction::Exec { path } => assert_eq!(path, b"shell".to_vec()),
        other => panic!("{:?}", other),
    }
}

#[test]
fn exec_finish_replaces_the_caller_only_by_a_good_image() {
    let (mut a, mut t, _k, u) = kernel();
    let free = a.count_free();
    // no image
    exec_failed(&mut t, u);
    assert_eq!(a0(&t, u), FAILED);
    // a bad image: the caller stays, nothing is taken
    issue(&mut t, u, syscall_execv(0, 0));
    let bad = vec![0u8; 64];
    assert_eq!(exec_finish(&mut t, &mut a, u, &bad), Err(LoadErrors::Magic));
    assert_eq!(t.len(), 2);
    assert_eq!(a0(&t, u), FAILED);
    assert_eq!(a.count_free(), free);
    assert!(get_by_pid(&t, 2).is_some());
    // a good image without segments
    let mut good = Vec::new();
    good.extend_from_slice(&0x464c_457fu32.to_le_bytes());
    good.extend_from_slice(&[0u8; 12]);
    good.extend_from_slice(&2u16.to_le_bytes());
    good.extend_from_slice(&0xf3u16.to_le_bytes());
    good.extend_from_slice(&1u32.to_le_bytes());
    good.extend_from_slice(&0x2000_0000u64.to_le_bytes());
    good.extend_from_slice(&[0u8; 32]);
    assert_eq!(good.len(), 64);
    assert_eq!(exec_finish(&mut t, &mut a, u, &good), Ok(3));
    assert_eq!(t.len(), 2);
    assert!(get_by_pid(&t, 2).is_none());
    let p = get_by_pid(&t, 3).unwrap();
    assert_eq!(p.get_program_counter(), 0x2000_0000);
    assert_eq!(t.get(1).get_pid(), 3);
}

fn inode(size: u32) -> Inode {
    Inode { mode: 0, nlinks: 1, uid: 0, gid: 0, size, atime: 0, mtime: 0, ctime: 0, zones: [0; 10] }
}

#[test]
fn open_and_close_keep_the_descriptors_of_the_caller() {
    let (mut a, mut t, _k, u) = kernel();
    let stack = get_by_pid(&t, 2).unwrap().stack;
    // a device is opened at once: the first descriptor above those of the console
    assert!(a.store(stack, &b"/dev/fb\0".to_vec()));
    issue(&mut t, u, call(1024, [STACK_ADDR, 0, 0, 0, 0]));
    assert!(matches!(do_syscall(&mut t, &mut a, 0x100, u, 0), SyscallAction::Done));
    assert_eq!(a0(&t, u), 3);
    assert!(matches!(get_by_pid(&t, 2).unwrap().data.fdesc.get(&3), Some(FileDescriptor::Framebuffer)));
    assert!(a.store(stack, &b"/dev/butev\0".to_vec()));
    issue(&mut t, u, call(1024, [STACK_ADDR, 0, 0, 0, 0]));
    do_syscall(&mut t, &mut a, 0x100, u, 0);
    assert_eq!(a0(&t, u), 4);
    assert!(matches!(get_by_pid(&t, 2).unwrap().data.fdesc.get(&4), Some(FileDescriptor::ButtonEvents)));
    assert!(a.store(stack, &b"/dev/absev\0".to_vec()));
    issue(&mut t, u, call(1024, [STACK_ADDR, 0, 0, 0, 0]));
    do_syscall(&mut t, &mut a, 0x100, u, 0);
    assert_eq!(a0(&t, u), 5);
    assert!(matches!(get_by_pid(&t, 2).unwrap().data.fdesc.get(&5), Some(FileDescriptor::AbsoluteEvents)));
    // any other path is looked up in the file system
    assert!(a.store(stack, &b"/dev/fbx\0".to_vec()));
    issue(&mut t, u, call(1024, [STACK_ADDR, 0, 0, 0, 0]));
    match do_syscall(&mut t, &mut a, 0x100, u, 0) {
        SyscallAction::Open { path } => assert_eq!(path, b"/dev/fbx".to_vec()),
        other => panic!("{:?}", other),
    }
    open_finish(&mut t, u, Some(inode(77)));
    assert_eq!(a0(&t, u), 6);
    match get_by_pid(&t, 2).unwrap().data.fdesc.get(&6) {
        Some(FileDescriptor::File(i)) => assert_eq!(i.size, 77),
        other => panic!("{:?}", other),
    }
    // a path that names no file
    open_finish(&mut t, u, None);
    assert_eq!(a0(&t, u), FAILED);
    assert_eq!(get_by_pid(&t, 2).unwrap().data.fdesc.len(), 4);
    // closing a lower one leaves the highest one the greatest
    issue(&mut t, u, call(57, [3, 0, 0, 0, 0]));
    assert!(matches!(do_syscall(&mut t, &mut a, 0x100, u, 0), SyscallAction::Done));
    assert_eq!(a0(&t, u), 0);
    issue(&mut t, u, call(57, [3, 0, 0, 0, 0]));
    do_syscall(&mut t, &mut a, 0x100, u, 0);
    assert_eq!(a0(&t, u), FAILED);
    open_finish(&mut t, u, Some(inode(1)));
    assert_eq!(a0(&t, u), 7);
    // a write to an open file or to the frame buffer leaves the register alone
    issue(&mut t, u, call(64, [6, STACK_ADDR, 10, 0, 0]));
    do_syscall(&mut t, &mut a, 0x100, u, 0);
    assert_eq!(a0(&t, u), 6);
    issue(&mut t, u, call(64, [4, STACK_ADDR, 10, 0, 0]));
    do_syscall(&mut t, &mut a, 0x100, u, 0);
    assert_eq!(a0(&t, u), 0);
    // a path that is not mapped fails the call
    issue(&mut t, u, call(1024, [0x10, 0, 0, 0, 0]));
    assert!(matches!(do_syscall(&mut t, &mut a, 0x100, u, 0), SyscallAction::Done));
    assert_eq!(a0(&t, u), FAILED);
    // a frame that no process has
    open_finish(&mut t, 0x4444, Some(inode(1)));
}

#[test]
fn open_looks_at_a_bounded_part_of_the_path() {
    let (mut a, mut t, _k, u) = kernel();
    let stack = get_by_pid(&t, 2).unwrap().stack;
    assert!(a.store(stack, &vec![b'a'; 300]));
    issue(&mut t, u, call(1024, [STACK_ADDR, 0, 0, 0, 0]));
    match do_syscall(&mut t, &mut a, 0x100, u, 0) {
        SyscallAction::Open { path } => assert_eq!(path, vec![b'a'; 256]),
        other => panic!("{:?}", other),
    }
}

#[test]
fn arguments_of_calls_are_cut_to_their_width() {
    let (mut a, mut t, _k, u) = kernel();
    issue(&mut t, u, call(1001, [1, (1 << 32) | 10, u64::MAX, 30, 40]));
    match do_syscall(&mut t, &mut a, 0x100, u, 0) {
        SyscallAction::InvalidateRect { dev, x, y, width, height } => {
            assert_eq!((dev, x, y, width, height), (1, 10, u32::MAX, 30, 40))
        }
        other => panic!("{:?}", other),
    }
    // the descriptor of a read counts in 16 bits
    issue(&mut t, u, call(63, [1 << 16, 0x5000, 16, 0, 0]));
    assert!(matches!(do_syscall(&mut t, &mut a, 0x100, u, 0), SyscallAction::ReadStdin { .. }));
}

/// The `n` bytes of memory from `addr` on.
fn bytes(a: &PageAllocator, addr: u64, n: u64) -> Vec<u8> {
    (0..n).map(|i| a.read(addr + i).unwrap()).collect()
}

#[test]
fn a_read_without_input_makes_the_caller_wait() {
    let (mut a, mut t, _k, u) = kernel();
    let mut c = console::init();
    issue(&mut t, u, call(63, [0, STACK_ADDR, 16, 0, 0]));
    let before = (a.count_free(), bytes(&a, START, 64));
    read_stdin(&mut c, &mut t, &mut a, u, STACK_ADDR, 16);
    assert_eq!(c.queue, VecDeque::from(vec![2u16]));
    assert!(c.in_buffer.is_empty());
    assert_eq!(get_by_pid(&t, 2).unwrap().state, ProcessState::Waiting);
    assert_eq!(get_by_pid(&t, 1).unwrap().state, ProcessState::Running);
    assert_eq!(a0(&t, u), 0);
    assert_eq!((a.count_free(), bytes(&a, START, 64)), before);
}

#[test]
fn a_read_takes_queued_input_into_the_buffer() {
    let (mut a, mut t, _k, u) = kernel();
    let mut c = console::init();
    for b in *b"hello" {
        c.in_buffer.push_back(b);
    }
    let stack = get_by_pid(&t, 2).unwrap().stack;
    read_stdin(&mut c, &mut t, &mut a, u, STACK_ADDR + 7, 3);
    assert_eq!(a0(&t, u), 3);
    assert_eq!(c.in_buffer, VecDeque::from(b"lo".to_vec()));
    assert!(c.queue.is_empty());
    assert_eq!(get_by_pid(&t, 2).unwrap().state, ProcessState::Running);
    assert_eq!(bytes(&a, stack + 6, 5), vec![0, b'h', b'e', b'l', 0]);
    // more asked for than there is
    read_stdin(&mut c, &mut t, &mut a, u, STACK_ADDR, 100);
    assert_eq!(a0(&t, u), 2);
    assert!(c.in_buffer.is_empty());
    assert_eq!(bytes(&a, stack, 3), vec![b'l', b'o', 0]);
}

#[test]
fn a_read_stops_where_the_buffer_leaves_the_address_space() {
    let (mut a, mut t, _k, u) = kernel();
    let mut c = console::init();
    for b in *b"abcdef" {
        c.in_buffer.push_back(b);
    }
    let stack = get_by_pid(&t, 2).unwrap().stack;
    // the last two bytes of the stack, and nothing mapped behind them
    let end = STACK_ADDR + 16 * PAGE_SIZE;
    read_stdin(&mut c, &mut t, &mut a, u, end - 2, 6);
    assert_eq!(a0(&t, u), 2);
    assert!(c.in_buffer.is_empty());
    assert_eq!(bytes(&a, stack + 16 * PAGE_SIZE - 2, 2), vec![b'a', b'b']);
}

#[test]
fn a_read_of_a_kernel_process_drops_the_input() {
    let (mut a, mut t, k, _u) = kernel();
    let mut c = console::init();
    c.in_buffer.push_back(b'x');
    c.in_buffer.push_back(b'y');
    let before = (a.count_free(), bytes(&a, START, 64));
    read_stdin(&mut c, &mut t, &mut a, k, START, 1);
    assert_eq!(a0(&t, k), 0);
    assert_eq!(c.in_buffer, VecDeque::from(vec![b'y']));
    assert_eq!((a.count_free(), bytes(&a, START, 64)), before);
    // a frame that no process has
    read_stdin(&mut c, &mut t, &mut a, 0x1234, START, 1);
    assert_eq!(c.in_buffer, VecDeque::from(vec![b'y']));
}

#[test]
fn events_are_stored_low_byte_first() {
    let (mut a, mut t, _k, u) = kernel();
    let mut events = VecDeque::new();
    events.push_back(Event::new(EventType::Key, 0x0102, 0x0a0b0c0d));
    events.push_back(Event::new(EventType::Abs, 1, 0x7fff));
    events.push_back(Event::new(EventType::Max, 0xffff, u32::MAX));
    let stack = get_by_pid(&t, 2).unwrap().stack;
    deliver_events(&mut events, &mut t, &mut a, u, STACK_ADDR + 8, 2);
    assert_eq!(a0(&t, u), 2);
    assert_eq!(events.len(), 1);
    assert_eq!(events[0], Event::new(EventType::Max, 0xffff, u32::MAX));
    assert_eq!(
        bytes(&a, stack + 8, 16),
        vec![1, 0, 2, 1, 0x0d, 0x0c, 0x0b, 0x0a, 3, 0, 1, 0, 0xff, 0x7f, 0, 0]
    );
    assert_eq!(bytes(&a, stack + 24, 8), vec![0; 8]);
    // more asked for than there is
    deliver_events(&mut events, &mut t, &mut a, u, STACK_ADDR, 10);
    assert_eq!(a0(&t, u), 1);
    assert!(events.is_empty());
    assert_eq!(bytes(&a, stack, 8), vec![0x1f, 0, 0xff, 0xff, 0xff, 0xff, 0xff, 0xff]);
    // none left
    deliver_events(&mut events, &mut t, &mut a, u, STACK_ADDR, 10);
    assert_eq!(a0(&t, u), 0);
}

#[test]
fn events_that_cannot_be_stored_stay_queued() {
    let (mut a, mut t, k, u) = kernel();
    let mut events = VecDeque::new();
    events.push_back(Event::new(EventType::Key, 30, 1));
    events.push_back(Event::new(EventType::Key, 30, 0));
    let before = (a.count_free(), bytes(&a, START, 64));
    // nothing is mapped there
    issue(&mut t, u, call(1002, [0x6000, 4, 0, 0, 0]));
    deliver_events(&mut events, &mut t, &mut a, u, 0x6000, 4);
    assert_eq!(a0(&t, u), 0);
    assert_eq!(events.len(), 2);
    assert_eq!((a.count_free(), bytes(&a, START, 64)), before);
    // the last event of the stack fits, the next one does not
    let end = STACK_ADDR + 16 * PAGE_SIZE;
    deliver_events(&mut events, &mut t, &mut a, u, end - 8, 4);
    assert_eq!(a0(&t, u), 1);
    assert_eq!(events.len(), 1);
    assert_eq!(events[0], Event::new(EventType::Key, 30, 0));
    // a kernel process runs without translation: nothing is done
    issue(&mut t, k, call(1002, [START, 4, 0, 0, 0]));
    let before = (a.count_free(), bytes(&a, START, 64));
    deliver_events(&mut events, &mut t, &mut a, k, START, 4);
    assert_eq!(a0(&t, k), START);
    assert_eq!(events.len(), 1);
    assert_eq!((a.count_free(), bytes(&a, START, 64)), before);
}

fn display(width: u32, height: u32, framebuffer: u64) -> Device {
    let mut d = Device::new();
    d.width = width;
    d.height = height;
    d.framebuffer = framebuffer;
    d
}

#[test]
fn the_frame_buffer_is_mapped_page_by_page() {
    let (mut a, mut t, _k, u) = kernel();
    let fb = a.zalloc(3);
    assert_ne!(fb, 0);
    // 64 * 33 * 4 bytes: two pages and a rest
    let d = display(64, 33, fb);
    let free = a.count_free();
    assert!(show_framebuffer(&mut t, &mut a, u, &d));
    assert_eq!(a0(&t, u), FRAMEBUFFER_ADDR);
    assert_eq!(FRAMEBUFFER_ADDR, 0x3000_0000);
    let p = get_by_pid(&t, 2).unwrap();
    assert_eq!(virt_to_phys(&p.root, 0x3000_0000), Some(fb));
    assert_eq!(virt_to_phys(&p.root, 0x3000_1008), Some(fb + 0x1008));
    assert_eq!(virt_to_phys(&p.root, 0x3000_2000), None);
    // one table of each of the two lower levels
    assert_eq!(a.count_free(), free - 2);
    // the process may read and write there
    assert!(rvkernel::mmu::walk(&p.root, 0x3000_0000, 4).is_some());
    assert!(rvkernel::mmu::walk(&p.root, 0x3000_0000, 8).is_none());
    // a second call finds the tables in place
    assert!(show_framebuffer(&mut t, &mut a, u, &d));
    assert_eq!(a.count_free(), free - 2);
}

#[test]
fn the_frame_buffer_needs_room_for_its_tables() {
    let (mut a, mut t, k, u) = kernel();
    // 640 * 480 * 4 bytes are 300 pages
    let d = Device::new();
    let free = a.count_free();
    assert!(free < 600);
    issue(&mut t, u, call(1000, [1, 0, 0, 0, 0]));
    let before = (a.count_free(), bytes(&a, START, 64));
    assert!(!show_framebuffer(&mut t, &mut a, u, &d));
    assert_eq!(a0(&t, u), 1);
    assert_eq!((a.count_free(), bytes(&a, START, 64)), before);
    assert_eq!(virt_to_phys(&get_by_pid(&t, 2).unwrap().root, 0x3000_0000), None);
    // a kernel process is only told the address
    assert!(show_framebuffer(&mut t, &mut a, k, &d));
    assert_eq!(a0(&t, k), FRAMEBUFFER_ADDR);
    assert_eq!((a.count_free(), bytes(&a, START, 64)), before);
    assert!(!show_framebuffer(&mut t, &mut a, 0x1234, &d));
}

#[test]
fn the_working_directory_is_asked_for_with_a_buffer_in_reach() {
    let (mut a, mut t, k, u) = kernel();
    issue(&mut t, u, call(17, [STACK_ADDR, 64, 0, 0, 0]));
    assert!(matches!(do_syscall(&mut t, &mut a, 0x100, u, 0), SyscallAction::Done));
    assert_eq!(a0(&t, u), STACK_ADDR);
    issue(&mut t, u, call(17, [0x6000, 64, 0, 0, 0]));
    assert!(matches!(do_syscall(&mut t, &mut a, 0x100, u, 0), SyscallAction::Done));
    assert_eq!(a0(&t, u), FAILED);
    // without translation every buffer is in reach
    issue(&mut t, k, call(17, [0x6000, 64, 0, 0, 0]));
    assert!(matches!(do_syscall(&mut t, &mut a, 0x100, k, 0), SyscallAction::Done));
    assert_eq!(a0(&t, k), 0x6000);
}
