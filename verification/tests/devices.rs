use rvkernel::block::{
    block_op, fill_next_descriptor, pending, process_read, process_write, BlockDevice,
    BlockErrors, ProcArgs, STATUS_PENDING, VIRTIO_BLK_T_IN, VIRTIO_BLK_T_OUT,
};
use rvkernel::buffer::{BlockBuffer, Buffer};
use rvkernel::console::{
    init as console_init, pop_stdin, pop_stdout, push_queue, push_stdin, push_stdout,
    DEFAULT_IN_BUFFER_SIZE, DEFAULT_OUT_BUFFER_SIZE,
};
use rvkernel::cpu::{
    build_satp, gp, memcpy, CpuMode, KernelTrapFrame, Registers, SatpMode, TrapFrame,
    CONTEXT_SWITCH_TIME, FREQ,
};
use rvkernel::fs::{Inode, MinixFileSystem};
use rvkernel::gpu::{fill_rect, stroke_rect, Device, Pixel, Rect};
use rvkernel::input::{Event, EventType};
use rvkernel::kmem::init as kmem_init;
use rvkernel::lock::{Mutex, MutexState, DEFAULT_LOCK_SLEEP};
use rvkernel::page::PageAllocator;
use rvkernel::plic::{enable, is_pending, next, set_threshold, InterruptSource};
use rvkernel::process::{add_kernel_process, get_by_pid, set_waiting, ProcessState, ProcessTable};
use rvkernel::rng::EntropyDevice;
use rvkernel::uart::Uart;
use rvkernel::virtio::{
    device_index, probe, setup_network_device, Available, Descriptor, DeviceInterrupt,
    DeviceTypes, MmioOffsets, Probe, Queue, StatusField, Used, UsedElem, VirtioDevice,
    MMIO_VIRTIO_MAGIC, VIRTIO_DESC_F_NEXT, VIRTIO_DESC_F_WRITE, VIRTIO_RING_SIZE,
};

const START: u64 = 0x8010_0000;

#[test]
fn satp_is_built_from_mode_identifier_and_root() {
    assert_eq!(build_satp(SatpMode::Off, 0, 0), 0);
    assert_eq!(build_satp(SatpMode::Sv39, 0, 0), 8 << 60);
    assert_eq!(build_satp(SatpMode::Sv48, 0, 0), 9 << 60);
    assert_eq!(build_satp(SatpMode::Sv39, 5, 0x8765_4000), (8 << 60) | (5 << 44) | 0x87654);
    // the identifier counts in 16 bits, the page number in 40
    assert_eq!(build_satp(SatpMode::Off, 0x1_0003, 0), 3 << 44);
    assert_eq!(build_satp(SatpMode::Off, 0, u64::MAX), 0xff_ffff_ffff);
    assert_eq!(SatpMode::Sv39.val(), 8);
    assert_eq!(CpuMode::User.val(), 0);
    assert_eq!(CpuMode::Supervisor.val(), 1);
    assert_eq!(CpuMode::Machine.val(), 3);
}

#[test]
fn registers_have_their_numbers() {
    assert_eq!(gp(Registers::Zero), 0);
    assert_eq!(gp(Registers::Ra), 1);
    assert_eq!(gp(Registers::Sp), 2);
    assert_eq!(gp(Registers::A0), 10);
    assert_eq!(gp(Registers::A7), 17);
    assert_eq!(gp(Registers::T6), 31);
}

#[test]
fn frames_start_out_clear() {
    let f = TrapFrame::new();
    assert_eq!(f.qm, 1);
    assert_eq!((f.pc, f.satp, f.pid, f.mode, f.hartid), (0, 0, 0, 0, 0));
    assert!(f.regs.iter().all(|r| *r == 0) && f.fregs.iter().all(|r| *r == 0));
    let z = TrapFrame::zero();
    assert_eq!(z.qm, 0);
    assert!(z.regs.iter().all(|r| *r == 0));
    let k = KernelTrapFrame::zero();
    assert_eq!((k.satp, k.trap_stack, k.hartid), (0, 0, 0));
    assert_eq!(FREQ, 10_000_000);
    assert_eq!(CONTEXT_SWITCH_TIME, FREQ / 500);
}

#[test]
fn memcpy_copies_forward() {
    let mut a = PageAllocator::new(START, 1);
    assert!(a.store(START, &vec![1, 2, 3, 4, 5]));
    assert!(memcpy(&mut a, START + 16, START, 5));
    assert_eq!(a.read(START + 16), Some(1));
    assert_eq!(a.read(START + 20), Some(5));
    // an overlapping copy upwards repeats the first byte
    assert!(memcpy(&mut a, START + 1, START, 4));
    for k in 0..5 {
        assert_eq!(a.read(START + k), Some(1));
    }
    assert!(!memcpy(&mut a, START + 4090, START, 7));
    assert!(!memcpy(&mut a, START, START - 1, 2));
    assert_eq!(a.read(START + 4095), Some(0));
    assert!(memcpy(&mut a, START, START + 100, 0));
}

#[test]
fn mutex_is_tried_never_waited_for() {
    let mut m = Mutex::new();
    assert_eq!(*m.val(), MutexState::Unlocked);
    assert!(m.try_lock());
    assert_eq!(*m.val(), MutexState::Locked);
    assert!(!m.try_lock());
    assert_eq!(m.sleep_lock(), Some(DEFAULT_LOCK_SLEEP));
    m.unlock();
    assert_eq!(m.sleep_lock(), None);
    assert!(!m.try_lock());
    m.unlock();
    m.spin_lock();
    assert!(!m.try_lock());
    assert_eq!(DEFAULT_LOCK_SLEEP, 10000);
}

#[test]
fn mmio_offsets_and_their_scaling() {
    assert_eq!(MmioOffsets::MagicValue.val(), 0);
    assert_eq!(MmioOffsets::HostFeatures.val(), 0x10);
    assert_eq!(MmioOffsets::QueuePfn.val(), 0x40);
    assert_eq!(MmioOffsets::Status.val(), 0x70);
    assert_eq!(MmioOffsets::Config.val(), 0x100);
    assert_eq!(MmioOffsets::Status.scale32(), 0x1c);
    assert_eq!(MmioOffsets::QueueNotify.scale32(), 0x14);
    assert_eq!(MmioOffsets::Config.scaled(8), 0x20);
    assert_eq!(MmioOffsets::InterruptAck.scaled(1), 0x64);
}

#[test]
fn status_bits() {
    assert_eq!(StatusField::Acknowledge.val(), 1);
    assert_eq!(StatusField::Driver.val32(), 2);
    assert_eq!(StatusField::DriverOk.val32(), 4);
    assert_eq!(StatusField::FeaturesOk.val32(), 8);
    assert_eq!(StatusField::DeviceNeedsReset.val(), 64);
    assert_eq!(StatusField::Failed.val(), 128);
    assert!(StatusField::test(0b1011, StatusField::FeaturesOk));
    assert!(!StatusField::test(0b1011, StatusField::DriverOk));
    assert!(StatusField::is_failed(128) && !StatusField::is_failed(127));
    assert!(StatusField::needs_reset(64 | 1) && !StatusField::needs_reset(1));
    assert!(StatusField::driver_ok(4) && !StatusField::driver_ok(8));
    assert!(StatusField::features_ok(8 | 4) && !StatusField::features_ok(4));
}

#[test]
fn probing_classifies_a_register_window() {
    assert_eq!(probe(0, 2), Probe::NotVirtio);
    assert_eq!(probe(MMIO_VIRTIO_MAGIC, 0), Probe::NotConnected);
    assert_eq!(probe(MMIO_VIRTIO_MAGIC, 1), Probe::Device(DeviceTypes::Network));
    assert_eq!(probe(MMIO_VIRTIO_MAGIC, 2), Probe::Device(DeviceTypes::Block));
    assert_eq!(probe(MMIO_VIRTIO_MAGIC, 4), Probe::Device(DeviceTypes::Entropy));
    assert_eq!(probe(MMIO_VIRTIO_MAGIC, 16), Probe::Device(DeviceTypes::Gpu));
    assert_eq!(probe(MMIO_VIRTIO_MAGIC, 18), Probe::Device(DeviceTypes::Input));
    assert_eq!(probe(MMIO_VIRTIO_MAGIC, 3), Probe::Unknown);
    assert_eq!(probe(MMIO_VIRTIO_MAGIC, 24), Probe::Unknown);
    assert_eq!(DeviceTypes::from_id(3), Some(DeviceTypes::Console));
    assert_eq!(DeviceTypes::from_id(24), Some(DeviceTypes::Memory));
    assert_eq!(DeviceTypes::from_id(5), None);
    assert_eq!(device_index(0x1000_1000), 0);
    assert_eq!(device_index(0x1000_8000), 7);
    assert!(!setup_network_device(0x1000_1000));
    assert_eq!(VirtioDevice::new().devtype, DeviceTypes::Absent);
    assert_eq!(VirtioDevice::new_with(DeviceTypes::Gpu).devtype, DeviceTypes::Gpu);
    assert_eq!(VIRTIO_RING_SIZE, 128);
}

#[test]
fn interrupts_are_routed_by_their_number() {
    assert_eq!(rvkernel::plic::handle_interrupt(0), None);
    assert_eq!(rvkernel::plic::handle_interrupt(1), Some(InterruptSource::Virtio(1)));
    assert_eq!(rvkernel::plic::handle_interrupt(8), Some(InterruptSource::Virtio(8)));
    assert_eq!(rvkernel::plic::handle_interrupt(10), Some(InterruptSource::Uart));
    assert_eq!(rvkernel::plic::handle_interrupt(9), Some(InterruptSource::Unknown(9)));
    assert_eq!(rvkernel::plic::handle_interrupt(11), Some(InterruptSource::Unknown(11)));
    assert_eq!(next(0), None);
    assert_eq!(next(3), Some(3));
    assert_eq!(set_threshold(7), 7);
    assert_eq!(set_threshold(9), 1);
    assert!(is_pending(0b1000, 3) && !is_pending(0b1000, 2));
    assert_eq!(enable(0b1, 10), 0b100_0000_0001);
    let mut devices = [None; 8];
    devices[0] = Some(VirtioDevice::new_with(DeviceTypes::Block));
    devices[3] = Some(VirtioDevice::new_with(DeviceTypes::Gpu));
    devices[7] = Some(VirtioDevice::new_with(DeviceTypes::Input));
    devices[5] = Some(VirtioDevice::new_with(DeviceTypes::Entropy));
    assert_eq!(rvkernel::virtio::handle_interrupt(&devices, 1), DeviceInterrupt::Block(0));
    assert_eq!(rvkernel::virtio::handle_interrupt(&devices, 4), DeviceInterrupt::Gpu(3));
    assert_eq!(rvkernel::virtio::handle_interrupt(&devices, 8), DeviceInterrupt::Input(7));
    assert_eq!(rvkernel::virtio::handle_interrupt(&devices, 6), DeviceInterrupt::Invalid);
    assert_eq!(rvkernel::virtio::handle_interrupt(&devices, 2), DeviceInterrupt::Spurious);
}

fn queue() -> Queue {
    let d = Descriptor { addr: 0, len: 0, flags: 0, next: 0 };
    Queue {
        desc: [d; 128],
        avail: Available { flags: 0, idx: 0, ring: [0; 128], event: 0 },
        padding0: [0; 1786],
        used: Used { flags: 0, idx: 0, ring: [UsedElem { id: 0, len: 0 }; 128], event: 0 },
    }
}

fn device(read_only: bool) -> BlockDevice {
    BlockDevice { queue: 0x9000_0000, dev: 0x1000_8000, idx: 0, ack_used_idx: 0, read_only }
}

#[test]
fn descriptors_are_filled_round_the_ring() {
    let mut q = queue();
    let mut bd = device(false);
    let d = Descriptor { addr: 0x5000, len: 16, flags: VIRTIO_DESC_F_NEXT, next: 77 };
    assert_eq!(fill_next_descriptor(&mut bd, &mut q, d), 1);
    assert_eq!(q.desc[1], Descriptor { addr: 0x5000, len: 16, flags: 1, next: 2 });
    let e = Descriptor { addr: 0x6000, len: 1, flags: VIRTIO_DESC_F_WRITE, next: 77 };
    assert_eq!(fill_next_descriptor(&mut bd, &mut q, e), 2);
    assert_eq!(q.desc[2], e);
    bd.idx = 127;
    assert_eq!(fill_next_descriptor(&mut bd, &mut q, d), 0);
    assert_eq!(q.desc[0].next, 1);
    bd.idx = 126;
    assert_eq!(fill_next_descriptor(&mut bd, &mut q, d), 127);
    assert_eq!(q.desc[127].next, 0);
}

#[test]
fn block_operation_lays_out_header_data_and_status() {
    let mut q = queue();
    let mut bd = device(false);
    let rq = block_op(&mut bd, &mut q, 0x7000, 0x8000, 1024, 5 * 512 + 9, false, 4).unwrap();
    assert_eq!(rq.header.blktype, VIRTIO_BLK_T_IN);
    assert_eq!(rq.header.sector, 5);
    assert_eq!(rq.header.reserved, 0);
    assert_eq!(rq.data.data, 0x8000);
    assert_eq!(rq.status.status, STATUS_PENDING);
    assert_eq!(rq.status.status, 111);
    assert_eq!(rq.head, 1);
    assert_eq!(rq.watcher, 4);
    assert_eq!(q.desc[1], Descriptor { addr: 0x7000, len: 16, flags: 1, next: 2 });
    // the device writes the data of a read
    assert_eq!(q.desc[2], Descriptor { addr: 0x8000, len: 1024, flags: 3, next: 3 });
    assert_eq!(q.desc[3], Descriptor { addr: 0x7000 + 24, len: 1, flags: 2, next: 0 });
    assert_eq!(q.avail.ring[0], 1);
    assert_eq!(q.avail.idx, 1);
    assert_eq!(bd.idx, 3);
    let rq = rvkernel::block::write(&mut bd, &mut q, 0x7100, 0x8000, 512, 0).unwrap();
    assert_eq!(rq.header.blktype, VIRTIO_BLK_T_OUT);
    assert_eq!((rq.head, rq.watcher), (4, 0));
    assert_eq!(q.desc[5].flags, 1);
    assert_eq!(q.avail.ring[1], 4);
    assert_eq!(q.avail.idx, 2);
    let rq = rvkernel::block::read(&mut bd, &mut q, 0x7200, 0x8000, 512, 512).unwrap();
    assert_eq!((rq.header.blktype, rq.header.sector, rq.head), (0, 1, 7));
}

#[test]
fn block_operation_refuses_bad_requests() {
    let mut q = queue();
    let mut ro = device(true);
    assert_eq!(block_op(&mut ro, &mut q, 0x7000, 0x8000, 512, 0, true, 0), Err(BlockErrors::ReadOnly));
    assert_eq!(block_op(&mut ro, &mut q, 0x7000, 0x8000, 100, 0, false, 0), Err(BlockErrors::InvalidArgument));
    // the write to a read-only device is what is reported first
    assert_eq!(block_op(&mut ro, &mut q, 0x7000, 0x8000, 100, 0, true, 0), Err(BlockErrors::ReadOnly));
    assert_eq!(ro.idx, 0);
    assert_eq!(q.avail.idx, 0);
    assert!(block_op(&mut ro, &mut q, 0x7000, 0x8000, 0, 0, false, 0).is_ok());
}

#[test]
fn answered_request_wakes_its_watcher() {
    let mut a = PageAllocator::new(START, 64);
    let mut t = ProcessTable::new(0);
    add_kernel_process(&mut t, &mut a, 0x100);
    add_kernel_process(&mut t, &mut a, 0x200);
    set_waiting(&mut t, 2);
    assert!(pending(&mut t, 2, 1));
    let p = get_by_pid(&t, 2).unwrap();
    assert_eq!(*p.get_state(), ProcessState::Running);
    assert_eq!(p.get_frame().regs[10], 1);
    // no watcher, or one that is gone
    assert!(!pending(&mut t, 0, 0));
    assert!(!pending(&mut t, 9, 0));
    assert_eq!(get_by_pid(&t, 1).unwrap().get_frame().regs[10], 0);
}

#[test]
fn transfer_for_a_process_spawns_a_worker() {
    let mut a = PageAllocator::new(START, 64);
    let mut t = ProcessTable::new(0);
    add_kernel_process(&mut t, &mut a, 0x100);
    let (args, worker) = process_read(&mut t, &mut a, 0x8000_3000, 0x8040_0000, 1, 8, 0x9000, 512, 1024);
    assert_eq!(args, ProcArgs { pid: 1, dev: 8, buffer: 0x9000, size: 512, offset: 1024 });
    assert_eq!(worker, 2);
    assert_eq!(*get_by_pid(&t, 1).unwrap().get_state(), ProcessState::Waiting);
    let w = get_by_pid(&t, 2).unwrap();
    assert_eq!(w.get_program_counter(), 0x8000_3000);
    assert_eq!(w.get_frame().regs[10], 0x8040_0000);
    let (_args, worker) = process_write(&mut t, &mut a, 0x8000_4000, 0, 2, 8, 0x9000, 512, 0);
    assert_eq!(worker, 3);
    assert_eq!(*get_by_pid(&t, 2).unwrap().get_state(), ProcessState::Waiting);
    // no room for another worker: the process waits all the same
    let (_args, worker) = process_read(&mut t, &mut a, 0x8000_3000, 0, 3, 8, 0, 0, 0);
    assert_eq!(worker, 0);
    assert_eq!(*get_by_pid(&t, 3).unwrap().get_state(), ProcessState::Waiting);
}

#[test]
fn buffers_live_on_the_kernel_heap() {
    let mut a = PageAllocator::new(START, 64);
    let mut heap = kmem_init(&mut a).unwrap();
    let mut b = Buffer::new(&mut heap, 100);
    assert_eq!(b.len(), 100);
    assert_eq!(b.get(), START + 8);
    assert_eq!(b.get_mut(), START + 8);
    assert!(b.index_mut(&mut a, 0, 11));
    assert!(b.index_mut(&mut a, 99, 22));
    assert!(!b.index_mut(&mut a, 100, 33));
    assert_eq!(b.index(&a, 0), Some(11));
    assert_eq!(b.index(&a, 99), Some(22));
    assert_eq!(b.index(&a, 100), None);
    let (c, ok) = b.duplicate(&mut heap, &mut a);
    assert!(ok);
    assert_eq!(c.len(), 100);
    assert_eq!(c.get(), START + 8 + 104 + 8);
    assert_eq!(c.index(&a, 0), Some(11));
    assert_eq!(c.index(&a, 99), Some(22));
    b.release(&mut heap);
    let d = Buffer::new(&mut heap, 50);
    assert_eq!(d.get(), START + 8);
    let huge = Buffer::new(&mut heap, 1 << 30);
    assert_eq!(huge.get(), 0);
    assert_eq!(huge.index(&a, 0), None);
    huge.release(&mut heap);
    let mut bb = BlockBuffer::new(&mut heap, 1024);
    assert_ne!(bb.get(), 0);
    assert_eq!(bb.get(), bb.get_mut());
    bb.release(&mut heap);
    c.release(&mut heap);
    d.release(&mut heap);
}

#[test]
fn console_queues_bytes_and_wakes_readers_at_the_end_of_a_line() {
    let mut a = PageAllocator::new(START, 64);
    let mut t = ProcessTable::new(0);
    add_kernel_process(&mut t, &mut a, 0x100);
    add_kernel_process(&mut t, &mut a, 0x200);
    let mut c = console_init();
    assert_eq!(pop_stdout(&mut c), 0);
    assert_eq!(pop_stdin(&mut c), 0);
    push_stdout(&mut c, b'a');
    push_stdout(&mut c, b'b');
    assert_eq!(pop_stdout(&mut c), b'a');
    assert_eq!(pop_stdout(&mut c), b'b');
    assert_eq!(pop_stdout(&mut c), 0);
    set_waiting(&mut t, 1);
    set_waiting(&mut t, 2);
    push_queue(&mut c, 2);
    push_queue(&mut c, 7);
    push_stdin(&mut c, &mut t, b'l');
    assert_eq!(*get_by_pid(&t, 2).unwrap().get_state(), ProcessState::Waiting);
    assert_eq!(c.queue.len(), 2);
    push_stdin(&mut c, &mut t, 10);
    assert_eq!(*get_by_pid(&t, 2).unwrap().get_state(), ProcessState::Running);
    assert_eq!(*get_by_pid(&t, 1).unwrap().get_state(), ProcessState::Waiting);
    assert!(c.queue.is_empty());
    assert_eq!(pop_stdin(&mut c), b'l');
    assert_eq!(pop_stdin(&mut c), 10);
    assert_eq!(pop_stdin(&mut c), 0);
}

#[test]
fn console_drops_what_does_not_fit() {
    let mut t = ProcessTable::new(0);
    let mut c = console_init();
    for k in 0..DEFAULT_IN_BUFFER_SIZE + 5 {
        push_stdin(&mut c, &mut t, (k % 7) as u8 + 20);
    }
    assert_eq!(c.in_buffer.len(), DEFAULT_IN_BUFFER_SIZE);
    push_queue(&mut c, 1);
    // a line end that is dropped wakes nobody
    push_stdin(&mut c, &mut t, 10);
    assert_eq!(c.queue.len(), 1);
    for _ in 0..DEFAULT_OUT_BUFFER_SIZE + 5 {
        push_stdout(&mut c, 1);
    }
    assert_eq!(c.out_buffer.len(), DEFAULT_OUT_BUFFER_SIZE);
}

fn pixel_at(a: &PageAllocator, fb: u64, width: u64, x: u64, y: u64) -> [u8; 4] {
    let at = fb + 4 * (y * width + x);
    [a.read(at).unwrap(), a.read(at + 1).unwrap(), a.read(at + 2).unwrap(), a.read(at + 3).unwrap()]
}

#[test]
fn rectangles_are_drawn_into_the_frame_buffer() {
    let mut a = PageAllocator::new(START, 4);
    let fb = a.zalloc(1);
    let mut dev = Device::new();
    assert_eq!((dev.get_width(), dev.get_height(), dev.get_framebuffer()), (640, 480, 0));
    dev.framebuffer = fb;
    dev.width = 32;
    dev.height = 32;
    let red = Pixel::new(255, 0, 0, 255);
    fill_rect(&dev, &mut a, Rect::new(2, 3, 4, 2), red);
    for y in 0..8u64 {
        for x in 0..8u64 {
            let inside = (2..6).contains(&x) && (3..5).contains(&y);
            let want = if inside { [255, 0, 0, 255] } else { [0, 0, 0, 0] };
            assert_eq!(pixel_at(&a, fb, 32, x, y), want, "pixel {} {}", x, y);
        }
    }
    // what lies beyond the memory is not drawn
    dev.framebuffer = START + 4 * 4096 - 8;
    fill_rect(&dev, &mut a, Rect::new(0, 0, 4, 1), red);
    assert_eq!(a.read(START + 4 * 4096 - 1), Some(255));
    dev.framebuffer = 0;
    fill_rect(&dev, &mut a, Rect::new(0, 0, 4, 4), red);
}

#[test]
fn stroke_draws_the_four_sides() {
    let mut a = PageAllocator::new(START, 4);
    let fb = a.zalloc(2);
    let mut dev = Device::new();
    dev.framebuffer = fb;
    dev.width = 32;
    let blue = Pixel::new(0, 0, 255, 255);
    stroke_rect(&dev, &mut a, Rect::new(4, 4, 8, 6), blue, 1);
    let on = [0, 0, 255, 255];
    let off = [0, 0, 0, 0];
    // top and bottom, the bottom below the rectangle
    assert_eq!(pixel_at(&a, fb, 32, 4, 4), on);
    assert_eq!(pixel_at(&a, fb, 32, 11, 4), on);
    assert_eq!(pixel_at(&a, fb, 32, 4, 10), on);
    assert_eq!(pixel_at(&a, fb, 32, 11, 10), on);
    // left and right, the right beside the rectangle and one row longer
    assert_eq!(pixel_at(&a, fb, 32, 4, 7), on);
    assert_eq!(pixel_at(&a, fb, 32, 12, 4), on);
    assert_eq!(pixel_at(&a, fb, 32, 12, 10), on);
    // the inside and the outside are untouched
    assert_eq!(pixel_at(&a, fb, 32, 5, 5), off);
    assert_eq!(pixel_at(&a, fb, 32, 11, 9), off);
    assert_eq!(pixel_at(&a, fb, 32, 3, 4), off);
    assert_eq!(pixel_at(&a, fb, 32, 13, 4), off);
    assert_eq!(pixel_at(&a, fb, 32, 4, 11), off);
    assert_eq!(pixel_at(&a, fb, 32, 12, 11), off);
}

#[test]
fn small_records() {
    assert_eq!(Uart::new(0x1000_0000).base_address, 0x1000_0000);
    let e = EntropyDevice::new();
    assert_eq!((e.queue, e.dev, e.idx, e.ack_used_idx), (0, 0, 0, 0));
    assert_eq!(EventType::Syn.val(), 0);
    assert_eq!(EventType::Abs.val(), 3);
    assert_eq!(EventType::Led.val(), 0x11);
    assert_eq!(EventType::Max.val(), 0x1f);
    let ev = Event::new(EventType::Key, 30, 1);
    assert_eq!(ev, Event { event_type: EventType::Key, code: 30, value: 1 });
    assert_eq!(Event::empty(), Event { event_type: EventType::Syn, code: 0, value: 0 });
    let inode = Inode { mode: 0o100_644, nlinks: 1, uid: 3, gid: 4, size: 99, atime: 0, mtime: 0, ctime: 0, zones: [0; 10] };
    let mut fs = MinixFileSystem;
    let st = fs.stat(&inode);
    assert_eq!((st.mode, st.size, st.uid, st.gid), (0o100_644, 99, 3, 4));
    assert_eq!(fs.write(&inode, 0x1000, 0, 10), 0);
}

fn blank_queue() -> rvkernel::virtio::Queue {
    let d = rvkernel::virtio::Descriptor { addr: 0, len: 0, flags: 0, next: 0 };
    rvkernel::virtio::Queue {
        desc: [d; 128],
        avail: rvkernel::virtio::Available { flags: 0, idx: 0, ring: [0; 128], event: 0 },
        padding0: [0; 1786],
        used: rvkernel::virtio::Used {
            flags: 0,
            idx: 0,
            ring: [rvkernel::virtio::UsedElem { id: 0, len: 0 }; 128],
            event: 0,
        },
    }
}

#[test]
fn a_transfer_offers_two_requests_with_room_for_their_answers() {
    use_gpu_transfer();
}

fn use_gpu_transfer() {
    let mut dev = rvkernel::gpu::Device::new();
    dev.idx = 126;
    let mut q = blank_queue();
    q.avail.idx = u16::MAX;
    let r = rvkernel::gpu::transfer(&mut dev, &mut q, 0x1000, 0x2000, 1, 2, 30, 40);
    let rect = rvkernel::gpu::Rect::new(1, 2, 30, 40);
    assert_eq!(r.transfer.hdr.ctrl_type, rvkernel::gpu::CtrlType::CmdTransferToHost2d);
    assert_eq!(r.transfer.hdr.ctrl_type.val(), 0x0105);
    assert_eq!((r.transfer.r, r.transfer.offset, r.transfer.resource_id), (rect, 0, 1));
    assert_eq!(r.flush.hdr.ctrl_type.val(), 0x0104);
    assert_eq!((r.flush.r, r.flush.resource_id), (rect, 1));
    // four descriptors, round the end of the ring
    assert_eq!(dev.idx, 2);
    let d = |addr, len, flags, next| rvkernel::virtio::Descriptor { addr, len, flags, next };
    assert_eq!(q.desc[126], d(0x1000, 56, 1, 127));
    assert_eq!(q.desc[127], d(0x1000 + 56, 24, 2, 0));
    assert_eq!(q.desc[0], d(0x2000, 48, 1, 1));
    assert_eq!(q.desc[1], d(0x2000 + 48, 24, 2, 0));
    // two chains offered, and the count of the ring runs round
    assert_eq!(q.avail.ring[127], 126);
    assert_eq!(q.avail.ring[0], 0);
    assert_eq!(q.avail.idx, 1);
}

#[test]
fn a_display_is_brought_up_with_five_requests() {
    let mut a = rvkernel::page::PageAllocator::new(0x8010_0000, 512);
    let fb = a.zalloc(302);
    assert_ne!(fb, 0);
    let mut dev = rvkernel::gpu::Device::new();
    dev.framebuffer = fb;
    let mut q = blank_queue();
    let at = [0x1000u64, 0x2000, 0x3000, 0x4000, 0x5000];
    let r = rvkernel::gpu::init(&mut dev, &mut q, &mut a, &at);
    assert_eq!(r.create.hdr.ctrl_type.val(), 0x0101);
    assert_eq!((r.create.width, r.create.height, r.create.resource_id), (640, 480, 1));
    assert_eq!(r.create.format.val(), 67);
    assert_eq!(r.attach.hdr.ctrl_type.val(), 0x0106);
    assert_eq!((r.attach.resource_id, r.attach.nr_entries), (1, 1));
    assert_eq!((r.backing.addr, r.backing.length), (fb, 640 * 480 * 4));
    assert_eq!(r.scanout.hdr.ctrl_type.val(), 0x0103);
    assert_eq!(r.scanout.r, rvkernel::gpu::Rect::new(0, 0, 640, 480));
    assert_eq!(r.transfer.r, rvkernel::gpu::Rect::new(0, 0, 640, 480));
    assert_eq!(r.flush.r, rvkernel::gpu::Rect::new(0, 0, 640, 480));
    // eleven descriptors in five chains
    assert_eq!(dev.idx, 11);
    assert_eq!(q.avail.idx, 5);
    assert_eq!(&q.avail.ring[..5], &[0, 2, 5, 7, 9]);
    let d = |addr, len, flags, next| rvkernel::virtio::Descriptor { addr, len, flags, next };
    assert_eq!(q.desc[0], d(0x1000, 40, 1, 1));
    assert_eq!(q.desc[1], d(0x1000 + 40, 24, 2, 0));
    assert_eq!(q.desc[2], d(0x2000, 32, 1, 3));
    assert_eq!(q.desc[3], d(0x2000 + 32, 16, 1, 4));
    assert_eq!(q.desc[4], d(0x2000 + 48, 24, 2, 0));
    assert_eq!(q.desc[5], d(0x3000, 48, 1, 6));
    assert_eq!(q.desc[7], d(0x4000, 56, 1, 8));
    assert_eq!(q.desc[9], d(0x5000, 48, 1, 10));
    assert_eq!(q.desc[10], d(0x5000 + 48, 24, 2, 0));
    // the screen is painted dark grey
    assert_eq!(a.read(fb), Some(2));
    assert_eq!(a.read(fb + 3), Some(255));
    assert_eq!(a.read(fb + 640 * 480 * 4 - 1), Some(255));
    assert_eq!(a.read(fb + 640 * 480 * 4), Some(0));
}

#[test]
fn finished_requests_go_back_to_the_heap() {
    let mut a = rvkernel::page::PageAllocator::new(0x8010_0000, 128);
    let mut heap = rvkernel::kmem::init(&mut a).unwrap();
    let first = rvkernel::kmem::kmalloc(&mut heap, 80);
    let second = rvkernel::kmem::kmalloc(&mut heap, 80);
    let third = rvkernel::kmem::kmalloc(&mut heap, 80);
    assert!(first != 0 && second != 0 && third != 0);
    let mut dev = rvkernel::gpu::Device::new();
    dev.ack_used_idx = u16::MAX;
    let mut q = blank_queue();
    q.desc[4].addr = first;
    q.desc[6].addr = third;
    // two entries, round the end of the count; the second names no descriptor
    q.used.ring[127] = rvkernel::virtio::UsedElem { id: 4, len: 0 };
    q.used.ring[0] = rvkernel::virtio::UsedElem { id: 4000, len: 0 };
    q.used.ring[1] = rvkernel::virtio::UsedElem { id: 6, len: 0 };
    q.used.idx = 1;
    rvkernel::gpu::pending(&mut dev, &q, &mut heap);
    assert_eq!(dev.ack_used_idx, 1);
    // the first block is free again, the third is not
    assert_eq!(rvkernel::kmem::kmalloc(&mut heap, 80), first);
    assert_ne!(rvkernel::kmem::kmalloc(&mut heap, 80), third);
    // nothing new: nothing happens
    rvkernel::gpu::pending(&mut dev, &q, &mut heap);
    assert_eq!(dev.ack_used_idx, 1);
}

fn input_device(buffer: u64) -> rvkernel::input::Device {
    rvkernel::input::Device {
        event_queue: 0,
        status_queue: 0,
        dev: 0,
        event_idx: 127,
        event_ack_used_idx: 0,
        event_buffer: buffer,
        status_idx: 0,
        status_ack_used_idx: 0,
        status_buffer: 0,
    }
}

#[test]
fn an_event_buffer_is_offered_again() {
    let mut dev = input_device(0x9000);
    let mut q = blank_queue();
    rvkernel::input::repopulate_event(&mut dev, &mut q, 5);
    assert_eq!(dev.event_idx, 0);
    assert_eq!(q.desc[127], rvkernel::virtio::Descriptor { addr: 0x9000 + 40, len: 8, flags: 2, next: 0 });
    assert_eq!((q.avail.ring[0], q.avail.idx), (127, 1));
}

#[test]
fn events_of_keys_and_positions_are_queued() {
    use_input_pending();
}

fn use_input_pending() {
    let start = 0x8010_0000u64;
    let mut a = rvkernel::page::PageAllocator::new(start, 16);
    let buffer = a.zalloc(1);
    // a key, a position, a synchronisation, and bytes that are no event
    assert!(a.store(buffer, &vec![1, 0, 30, 0, 1, 0, 0, 0]));
    assert!(a.store(buffer + 8, &vec![3, 0, 1, 0, 0x34, 0x12, 0, 0]));
    assert!(a.store(buffer + 16, &vec![0, 0, 0, 0, 0, 0, 0, 0]));
    assert!(a.store(buffer + 24, &vec![0xff, 0xff, 0, 0, 0, 0, 0, 0]));
    let mut dev = input_device(buffer);
    let mut q = blank_queue();
    for i in 0..4 {
        q.desc[i].addr = buffer + 8 * i as u64;
        q.used.ring[i] = rvkernel::virtio::UsedElem { id: i as u32, len: 8 };
    }
    q.used.ring[4] = rvkernel::virtio::UsedElem { id: 500, len: 8 };
    q.used.idx = 5;
    let mut status = blank_queue();
    status.used.idx = 9;
    let mut keys = std::collections::VecDeque::new();
    let mut abs = std::collections::VecDeque::new();
    rvkernel::input::pending(&mut dev, &mut q, &status, &a, &mut keys, &mut abs);
    assert_eq!(keys, vec![rvkernel::input::Event::new(rvkernel::input::EventType::Key, 30, 1)]);
    assert_eq!(abs, vec![rvkernel::input::Event::new(rvkernel::input::EventType::Abs, 1, 0x1234)]);
    assert_eq!((dev.event_ack_used_idx, dev.status_ack_used_idx), (5, 9));
    // four buffers were offered again, from descriptor 127 on
    assert_eq!(dev.event_idx, 3);
    assert_eq!(q.avail.idx, 4);
    assert_eq!(&q.avail.ring[..4], &[127, 0, 1, 2]);
    assert_eq!(q.desc[127].addr, buffer);
    assert_eq!(q.desc[0].addr, buffer + 8);
    assert_eq!(q.desc[2], rvkernel::virtio::Descriptor { addr: buffer + 24, len: 8, flags: 2, next: 0 });
    assert_eq!(rvkernel::input::kind(0x17), Some(rvkernel::input::EventType::FfStatus));
    assert_eq!(rvkernel::input::kind(6), None);
}

#[test]
fn the_set_up_of_a_device_goes_by_the_registers() {
    use_setup_protocol();
}

fn use_setup_protocol() {
    let w = |reg, v| rvkernel::virtio::RegisterOp::Write(reg, v);
    let r = |reg| rvkernel::virtio::RegisterOp::Read(reg);
    assert_eq!(
        rvkernel::virtio::begin_setup(),
        vec![
            w(MmioOffsets::Status, 0),
            w(MmioOffsets::Status, 1),
            w(MmioOffsets::Status, 5),
            r(MmioOffsets::HostFeatures)
        ]
    );
    // a block device is not told that the driver knows of read-only devices
    assert_eq!(
        rvkernel::virtio::offer_features(DeviceTypes::Block, 0xffff_ffff),
        vec![w(MmioOffsets::GuestFeatures, 0xffff_ffdf), w(MmioOffsets::Status, 13), r(MmioOffsets::Status)]
    );
    assert_eq!(rvkernel::virtio::offer_features(DeviceTypes::Input, 0xffff_ffff)[0], w(MmioOffsets::GuestFeatures, 0xdfff_ffff));
    assert_eq!(rvkernel::virtio::offer_features(DeviceTypes::Gpu, 0x1234_5678)[0], w(MmioOffsets::GuestFeatures, 0x1234_5678));
    assert_eq!(
        rvkernel::virtio::check_features(13),
        (true, vec![r(MmioOffsets::QueueNumMax), w(MmioOffsets::QueueNum, 128)])
    );
    assert_eq!(rvkernel::virtio::check_features(5), (false, vec![w(MmioOffsets::Status, 128)]));
    assert!(rvkernel::virtio::queue_fits(128));
    assert!(rvkernel::virtio::queue_fits(1024));
    assert!(!rvkernel::virtio::queue_fits(127));
    assert_eq!(
        rvkernel::virtio::finish_setup(&vec![0x8010_3000, 0x1_8020_0000]),
        vec![
            w(MmioOffsets::QueueSel, 0),
            w(MmioOffsets::GuestPageSize, 4096),
            w(MmioOffsets::QueuePfn, 0x80103),
            w(MmioOffsets::QueueSel, 1),
            w(MmioOffsets::GuestPageSize, 4096),
            w(MmioOffsets::QueuePfn, 0x80200),
            w(MmioOffsets::Status, 13)
        ]
    );
    assert_eq!(rvkernel::virtio::finish_setup(&vec![]), vec![w(MmioOffsets::Status, 13)]);
}

#[test]
fn devices_get_their_queues_from_the_page_allocator() {
    use_device_setup();
}

fn use_device_setup() {
    let start = 0x8010_0000u64;
    let mut a = rvkernel::page::PageAllocator::new(start, 512);
    let w = |reg, v| rvkernel::virtio::RegisterOp::Write(reg, v);
    let (bd, ops) = rvkernel::block::setup_block_device(0x1000_8000, &mut a, 1 << 5).unwrap();
    assert_eq!((bd.queue, bd.dev, bd.idx, bd.ack_used_idx, bd.read_only), (start, 0x1000_8000, 0, 0, true));
    assert_eq!(ops.len(), 4);
    assert_eq!(ops[2], w(MmioOffsets::QueuePfn, 0x80100));
    let (bd, _) = rvkernel::block::setup_block_device(0x1000_7000, &mut a, !(1 << 5)).unwrap();
    assert_eq!((bd.queue, bd.read_only), (start + 0x2000, false));
    let (rng, ops) = rvkernel::rng::setup_entropy_device(0x1000_6000, &mut a).unwrap();
    assert_eq!((rng.queue, rng.dev, rng.idx, rng.ack_used_idx), (start + 0x4000, 0x1000_6000, 0, 0));
    assert_eq!(ops[2], w(MmioOffsets::QueuePfn, 0x80104));
    let (gpu, ops) = rvkernel::gpu::setup_gpu_device(0x1000_5000, &mut a).unwrap();
    assert_eq!((gpu.queue, gpu.framebuffer, gpu.dev), (start + 0x6000, start + 0x8000, 0x1000_5000));
    assert_eq!((gpu.width, gpu.height, gpu.idx), (640, 480, 0));
    assert_eq!(ops.len(), 4);
    assert_eq!(a.count_free(), 512 - 6 - 304);
    // no room for another display: nothing is taken
    assert!(rvkernel::gpu::setup_gpu_device(0x1000_4000, &mut a).is_none());
    assert_eq!(a.count_free(), 512 - 6 - 304);
    let mut q = blank_queue();
    let (dev, ops) = rvkernel::input::setup_input_device(0x1000_3000, &mut a, &mut q, 0x7000, 0x9000).unwrap();
    assert_eq!((dev.event_queue, dev.status_queue), (start + 0x136000, start + 0x138000));
    assert_eq!((dev.event_idx, dev.event_buffer, dev.status_buffer, dev.dev), (64, 0x9000, 0x7000, 0x1000_3000));
    assert_eq!(ops.len(), 7);
    assert_eq!(ops[3], w(MmioOffsets::QueueSel, 1));
    // the 64 buffers are offered
    assert_eq!(q.avail.idx, 64);
    assert_eq!(q.avail.ring[63], 63);
    assert_eq!(q.desc[0], rvkernel::virtio::Descriptor { addr: 0x9000, len: 8, flags: 2, next: 0 });
    assert_eq!(q.desc[63].addr, 0x9000 + 8 * 63);
    assert_eq!(q.desc[64].addr, 0);
}

#[test]
fn a_random_number_is_not_random_yet() {
    let mut a = rvkernel::page::PageAllocator::new(0x8010_0000, 128);
    let mut heap = rvkernel::kmem::init(&mut a).unwrap();
    let first = rvkernel::kmem::kmalloc(&mut heap, 16);
    let mut devices = [None; 8];
    assert_eq!(rvkernel::rng::get_random(&devices, &mut heap), u64::MAX);
    devices[3] = Some(rvkernel::rng::EntropyDevice::new());
    assert_eq!(rvkernel::rng::get_random(&devices, &mut heap), u64::MAX);
    // the heap is as it was
    assert_eq!(rvkernel::kmem::kmalloc(&mut heap, 16), first + 24);
}
