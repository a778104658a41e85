//! Requests to block devices.
//!
//! A request is three buffers in a row: a header that names the direction
//! and the sector, the data, and one byte for the status that the device
//! writes. `block_op` checks a request and lays it out in the queue that the
//! driver shares with the device; ringing the device's bell is left to the
//! caller. A process that asks for a transfer waits until the device is done
//! and `pending` makes it runnable again.

use crate::cpu::{gp, Registers};
use crate::page::{after_requests, cleared, request_index, requests_fit, PageAllocator};
use crate::process::{
    add_kernel_process_args, has_pid, pid_index, set_running, set_waiting, Process, ProcessState,
    ProcessTable,
};
use crate::virtio::{
    finish_setup, queues_placed, reserve_queues, Descriptor, Queue, RegisterOp, VIRTIO_DESC_F_NEXT,
    VIRTIO_DESC_F_WRITE,
};
use vstd::prelude::*;

verus! {

pub const VIRTIO_BLK_T_IN: u32 = 0;

pub const VIRTIO_BLK_T_OUT: u32 = 1;

pub const VIRTIO_BLK_T_FLUSH: u32 = 4;

pub const VIRTIO_BLK_T_DISCARD: u32 = 11;

pub const VIRTIO_BLK_T_WRITE_ZEROES: u32 = 13;

pub const VIRTIO_BLK_S_OK: u8 = 0;

pub const VIRTIO_BLK_S_IOERR: u8 = 1;

pub const VIRTIO_BLK_S_UNSUPP: u8 = 2;

pub const VIRTIO_BLK_F_SIZE_MAX: u32 = 1;

pub const VIRTIO_BLK_F_SEG_MAX: u32 = 2;

pub const VIRTIO_BLK_F_GEOMETRY: u32 = 4;

pub const VIRTIO_BLK_F_RO: u32 = 5;

pub const VIRTIO_BLK_F_BLK_SIZE: u32 = 6;

pub const VIRTIO_BLK_F_FLUSH: u32 = 9;

pub const VIRTIO_BLK_F_TOPOLOGY: u32 = 10;

pub const VIRTIO_BLK_F_CONFIG_WCE: u32 = 11;

pub const VIRTIO_BLK_F_DISCARD: u32 = 13;

pub const VIRTIO_BLK_F_WRITE_ZEROES: u32 = 14;

/// Size of a sector in bytes.
pub const SECTOR_SIZE: u64 = 512;

/// The status byte of a request that the device has not answered yet.
pub const STATUS_PENDING: u8 = 111;

#[derive(Clone, Copy, Debug, PartialEq, Eq, Structural)]
pub struct Geometry {
    pub cylinders: u16,
    pub heads: u8,
    pub sectors: u8,
}

#[derive(Clone, Copy, Debug, PartialEq, Eq, Structural)]
pub struct Topology {
    pub physical_block_exp: u8,
    pub alignment_offset: u8,
    pub min_io_size: u16,
    pub opt_io_size: u32,
}

/// The configuration space of a block device.
#[derive(Clone, Copy, Debug)]
pub struct Config {
    pub capacity: u64,
    pub size_max: u32,
    pub seg_max: u32,
    pub geometry: Geometry,
    pub blk_size: u32,
    pub topology: Topology,
    pub writeback: u8,
    pub unused0: [u8; 3],
    pub max_discard_sector: u32,
    pub max_discard_seg: u32,
    pub discard_sector_alignment: u32,
    pub max_write_zeroes_sectors: u32,
    pub max_write_zeroes_seg: u32,
    pub write_zeroes_may_unmap: u8,
    pub unused1: [u8; 3],
}

/// The header of a request: the direction and the first sector.
#[derive(Clone, Copy, Debug, PartialEq, Eq, Structural)]
pub struct Header {
    pub blktype: u32,
    pub reserved: u32,
    pub sector: u64,
}

/// The data of a request: the address of the buffer.
#[derive(Clone, Copy, Debug, PartialEq, Eq, Structural)]
pub struct Data {
    pub data: u64,
}

#[derive(Clone, Copy, Debug, PartialEq, Eq, Structural)]
pub struct Status {
    pub status: u8,
}

/// A request as it stays in memory until the device has answered it.
#[derive(Clone, Copy, Debug, PartialEq, Eq, Structural)]
pub struct Request {
    pub header: Header,
    pub data: Data,
    pub status: Status,
    /// Index of the first descriptor of the request.
    pub head: u16,
    /// Identifier of the process that waits for the request; 0 for none.
    pub watcher: u16,
}

/// Offset of the status byte in a request.
pub const REQUEST_STATUS_OFFSET: u64 = 24;

/// Size of the header of a request in bytes.
pub const REQUEST_HEADER_SIZE: u32 = 16;

/// What the driver keeps of a block device.
#[derive(Clone, Copy, Debug, PartialEq, Eq, Structural)]
pub struct BlockDevice {
    /// Address of the queue that is shared with the device.
    pub queue: u64,
    /// Address of the register window.
    pub dev: u64,
    /// Index of the descriptor that was filled last.
    pub idx: u16,
    /// Index in the used ring up to which answers were taken.
    pub ack_used_idx: u16,
    pub read_only: bool,
}

#[derive(Clone, Copy, Debug, PartialEq, Eq, Structural)]
pub enum BlockErrors {
    Success,
    BlockDeviceNotFound,
    InvalidArgument,
    ReadOnly,
}

/// The index behind `idx` in the ring.
pub open spec fn ring_next(idx: u16) -> u16 {
    ((idx + 1) % 128) as u16
}

/// The descriptor `desc` as it is put into the ring at the index `idx`: a
/// descriptor that announces a successor points to the next index.
pub open spec fn linked(desc: Descriptor, idx: u16) -> Descriptor {
    if desc.flags & VIRTIO_DESC_F_NEXT != 0 {
        Descriptor { next: ring_next(idx), ..desc }
    } else {
        desc
    }
}

/// Puts `desc` into the next descriptor of the ring and returns its index.
/// The ring is used round and round; the first descriptor to be filled is
/// the one with the index 1.
pub fn fill_next_descriptor(bd: &mut BlockDevice, queue: &mut Queue, desc: Descriptor) -> (idx: u16)
    ensures
        idx == ring_next(old(bd).idx),
        *final(bd) == (BlockDevice { idx: idx, ..*old(bd) }),
        final(queue).desc@ == old(queue).desc@.update(idx as int, linked(desc, idx)),
        final(queue).avail == old(queue).avail,
        final(queue).used == old(queue).used,
        final(queue).padding0 == old(queue).padding0,
{
    let idx: u16 = ((bd.idx as u32 + 1) % 128) as u16;
    bd.idx = idx;
    let mut d = desc;
    if d.flags & VIRTIO_DESC_F_NEXT != 0 {
        d.next = ((idx as u32 + 1) % 128) as u16;
    }
    queue.desc[idx as usize] = d;
    idx
}

/// The request for a transfer of a buffer at `buffer` from or to the sector
/// that holds the byte `offset`, watched by the process `watcher`.
pub open spec fn spec_request(
    buffer: u64,
    offset: u64,
    write: bool,
    head: u16,
    watcher: u16,
) -> Request {
    Request {
        header: Header {
            blktype: if write {
                VIRTIO_BLK_T_OUT
            } else {
                VIRTIO_BLK_T_IN
            },
            reserved: 0,
            sector: offset / 512,
        },
        data: Data { data: buffer },
        status: Status { status: STATUS_PENDING },
        head,
        watcher,
    }
}

/// What is wrong with a transfer of `size` bytes, if anything: a write to a
/// device that is read-only, or a size that is no multiple of a sector.
pub open spec fn block_error(bd: BlockDevice, size: u32, write: bool) -> Option<BlockErrors> {
    if bd.read_only && write {
        Some(BlockErrors::ReadOnly)
    } else if size % 512 != 0 {
        Some(BlockErrors::InvalidArgument)
    } else {
        None
    }
}

/// The three descriptors of a request that stands at `request`: its header,
/// its data, which the device writes unless the transfer is a write, and
/// its status byte, which the device writes.
pub open spec fn request_descriptors(
    request: u64,
    buffer: u64,
    size: u32,
    write: bool,
) -> Seq<Descriptor> {
    seq![
        Descriptor { addr: request, len: REQUEST_HEADER_SIZE, flags: VIRTIO_DESC_F_NEXT, next: 0 },
        Descriptor {
            addr: buffer,
            len: size,
            flags: if write {
                VIRTIO_DESC_F_NEXT
            } else {
                3u16
            },
            next: 0,
        },
        Descriptor {
            addr: (request + REQUEST_STATUS_OFFSET) as u64,
            len: 1,
            flags: VIRTIO_DESC_F_WRITE,
            next: 0,
        },
    ]
}

/// Lays out a transfer of `size` bytes between the buffer at `buffer` and
/// the device, from the byte `offset` of the device on. The request itself
/// stands at `request`; the result holds what has to be stored there. The
/// three descriptors of the request are put into the ring, and its first
/// one is offered to the device. A request that is refused changes nothing.
pub fn block_op(
    bd: &mut BlockDevice,
    queue: &mut Queue,
    request: u64,
    buffer: u64,
    size: u32,
    offset: u64,
    write: bool,
    watcher: u16,
) -> (r: Result<Request, BlockErrors>)
    requires
        request + REQUEST_STATUS_OFFSET <= u64::MAX,
    ensures
        match r {
            Err(e) => block_error(*old(bd), size, write) == Some(e) && *final(bd) == *old(bd)
                && *final(queue) == *old(queue),
            Ok(rq) => {
                let head = ring_next(old(bd).idx);
                let second = ring_next(head);
                let third = ring_next(second);
                let d = request_descriptors(request, buffer, size, write);
                &&& block_error(*old(bd), size, write) is None
                &&& rq == spec_request(buffer, offset, write, head, watcher)
                &&& *final(bd) == (BlockDevice { idx: third, ..*old(bd) })
                &&& final(queue).desc@ == old(queue).desc@.update(
                    head as int,
                    linked(d[0], head),
                ).update(second as int, linked(d[1], second)).update(
                    third as int,
                    linked(d[2], third),
                )
                &&& final(queue).avail.ring@ == old(queue).avail.ring@.update(
                    (old(queue).avail.idx % 128) as int,
                    head,
                )
                &&& final(queue).avail.idx == if old(queue).avail.idx == u16::MAX {
                    0u16
                } else {
                    (old(queue).avail.idx + 1) as u16
                }
                &&& final(queue).avail.flags == old(queue).avail.flags
                &&& final(queue).avail.event == old(queue).avail.event
                &&& final(queue).used == old(queue).used
            },
        },
{
    if bd.read_only && write {
        return Err(BlockErrors::ReadOnly);
    }
    if size % 512 != 0 {
        return Err(BlockErrors::InvalidArgument);
    }
    let sector = offset / SECTOR_SIZE;
    let desc = Descriptor {
        addr: request,
        len: REQUEST_HEADER_SIZE,
        flags: VIRTIO_DESC_F_NEXT,
        next: 0,
    };
    let head_idx = fill_next_descriptor(bd, queue, desc);
    let flags: u16 = if write {
        VIRTIO_DESC_F_NEXT
    } else {
        3
    };
    let desc = Descriptor { addr: buffer, len: size, flags, next: 0 };
    let _data_idx = fill_next_descriptor(bd, queue, desc);
    let desc = Descriptor {
        addr: request + REQUEST_STATUS_OFFSET,
        len: 1,
        flags: VIRTIO_DESC_F_WRITE,
        next: 0,
    };
    let _status_idx = fill_next_descriptor(bd, queue, desc);
    let slot: usize = (queue.avail.idx % 128) as usize;
    queue.avail.ring[slot] = head_idx;
    queue.avail.idx = queue.avail.idx.wrapping_add(1);
    Ok(
        Request {
            header: Header {
                blktype: if write {
                    VIRTIO_BLK_T_OUT
                } else {
                    VIRTIO_BLK_T_IN
                },
                reserved: 0,
                sector,
            },
            data: Data { data: buffer },
            status: Status { status: STATUS_PENDING },
            head: head_idx,
            watcher,
        },
    )
}

/// A read that no process waits for; see `block_op`.
pub fn read(
    bd: &mut BlockDevice,
    queue: &mut Queue,
    request: u64,
    buffer: u64,
    size: u32,
    offset: u64,
) -> (r: Result<Request, BlockErrors>)
    requires
        request + REQUEST_STATUS_OFFSET <= u64::MAX,
    ensures
        match r {
            Err(e) => block_error(*old(bd), size, false) == Some(e) && *final(bd) == *old(bd)
                && *final(queue) == *old(queue),
            Ok(rq) => block_error(*old(bd), size, false) is None && rq == spec_request(
                buffer,
                offset,
                false,
                ring_next(old(bd).idx),
                0,
            ),
        },
{
    block_op(bd, queue, request, buffer, size, offset, false, 0)
}

/// A write that no process waits for; see `block_op`.
pub fn write(
    bd: &mut BlockDevice,
    queue: &mut Queue,
    request: u64,
    buffer: u64,
    size: u32,
    offset: u64,
) -> (r: Result<Request, BlockErrors>)
    requires
        request + REQUEST_STATUS_OFFSET <= u64::MAX,
    ensures
        match r {
            Err(e) => block_error(*old(bd), size, true) == Some(e) && *final(bd) == *old(bd)
                && *final(queue) == *old(queue),
            Ok(rq) => block_error(*old(bd), size, true) is None && rq == spec_request(
                buffer,
                offset,
                true,
                ring_next(old(bd).idx),
                0,
            ),
        },
{
    block_op(bd, queue, request, buffer, size, offset, true, 0)
}

/// What a kernel process that makes a transfer for another process is
/// handed: who waits, and what to transfer.
#[derive(Clone, Copy, Debug, PartialEq, Eq, Structural)]
pub struct ProcArgs {
    pub pid: u16,
    pub dev: u64,
    pub buffer: u64,
    pub size: u32,
    pub offset: u64,
}

/// The device has answered a request with `status`. The process `watcher`
/// that waited for it, if it is still in the table, is made runnable and
/// finds the status in its return register. A watcher of 0 stands for no
/// process.
pub fn pending(table: &mut ProcessTable, watcher: u16, status: u8) -> (woken: bool)
    requires
        old(table).wf(),
    ensures
        final(table).wf(),
        final(table).same_frame(*old(table)),
        woken == (watcher > 0 && has_pid(old(table).procs(), watcher)),
        !woken ==> final(table).procs() == old(table).procs(),
        woken ==> {
            let i = pid_index(old(table).procs(), watcher);
            let p = old(table).procs()[i];
            &&& final(table).procs().len() == old(table).procs().len()
            &&& forall|j: int|
                0 <= j < old(table).procs().len() && j != i ==> #[trigger] final(table).procs()[j]
                    == old(table).procs()[j]
            &&& final(table).procs()[i].with_frame(
                Process { state: ProcessState::Running, ..p },
                crate::cpu::FrameView { regs: p.frame@.regs.update(10, status as u64), ..p.frame@ },
            )
        },
{
    crate::process::wake(table, watcher, status as u64)
}

/// Starts a read for the process `pid`: the process waits, and a kernel
/// process that begins at `routine` is spawned to make the transfer, with
/// the address `args` of its arguments in its first argument register. The
/// result holds the arguments to store at `args` and the identifier of the
/// kernel process, 0 if it could not be spawned.
pub fn process_read(
    table: &mut ProcessTable,
    alloc: &mut PageAllocator,
    routine: u64,
    args: u64,
    pid: u16,
    dev: u64,
    buffer: u64,
    size: u32,
    offset: u64,
) -> (r: (ProcArgs, u16))
    requires
        old(table).wf(),
        old(alloc).wf(),
    ensures
        final(table).wf(),
        final(alloc).wf(),
        r.0 == (ProcArgs { pid, dev, buffer, size, offset }),
        waiting_for_worker(
            *old(table),
            *final(table),
            *old(alloc),
            *final(alloc),
            routine,
            args,
            pid,
            r.1,
        ),
{
    let record = ProcArgs { pid, dev, buffer, size, offset };
    set_waiting(table, pid);
    let worker = add_kernel_process_args(table, alloc, routine, args);
    (record, worker)
}

/// Starts a write for the process `pid`; see `process_read`.
pub fn process_write(
    table: &mut ProcessTable,
    alloc: &mut PageAllocator,
    routine: u64,
    args: u64,
    pid: u16,
    dev: u64,
    buffer: u64,
    size: u32,
    offset: u64,
) -> (r: (ProcArgs, u16))
    requires
        old(table).wf(),
        old(alloc).wf(),
    ensures
        final(table).wf(),
        final(alloc).wf(),
        r.0 == (ProcArgs { pid, dev, buffer, size, offset }),
        waiting_for_worker(
            *old(table),
            *final(table),
            *old(alloc),
            *final(alloc),
            routine,
            args,
            pid,
            r.1,
        ),
{
    let record = ProcArgs { pid, dev, buffer, size, offset };
    set_waiting(table, pid);
    let worker = add_kernel_process_args(table, alloc, routine, args);
    (record, worker)
}

/// The processes `procs` with the process `pid`, if there is one, waiting.
pub open spec fn with_waiting(procs: Seq<Process>, pid: u16) -> Seq<Process> {
    if has_pid(procs, pid) {
        let i = pid_index(procs, pid);
        procs.update(i, Process { state: ProcessState::Waiting, ..procs[i] })
    } else {
        procs
    }
}

/// `after` is `before` with the process `pid` waiting and the kernel process
/// `worker` spawned for it, if `worker` is not 0.
pub open spec fn waiting_for_worker(
    before: ProcessTable,
    after: ProcessTable,
    alloc_before: PageAllocator,
    alloc_after: PageAllocator,
    routine: u64,
    args: u64,
    pid: u16,
    worker: u16,
) -> bool {
    &&& after.locked() == before.locked()
    &&& after.exit_routine() == before.exit_routine()
    &&& crate::process::spawned(
        with_waiting(before.procs(), pid),
        before.next_pid(),
        after,
        alloc_before,
        alloc_after,
        routine,
        args,
        worker,
    )
}

/// The last part of the set-up of the block device whose registers are at
/// `ptr` and which offers the features `host_features`: the memory for its
/// queue is reserved, and the result holds what the driver keeps of the
/// device and what is left to write to its registers. The device is
/// read-only where it says so among its features. `None`, with nothing
/// changed, where `alloc` has no room.
pub fn setup_block_device(ptr: u64, alloc: &mut PageAllocator, host_features: u32) -> (r: Option<
    (BlockDevice, Vec<RegisterOp>),
>)
    requires
        old(alloc).wf(),
    ensures
        final(alloc).wf(),
        final(alloc).start() == old(alloc).start(),
        final(alloc).num_pages() == old(alloc).num_pages(),
        r is Some <==> requests_fit(old(alloc).pages(), seq![2usize]),
        r is None ==> final(alloc).pages() == old(alloc).pages() && final(alloc).memory() == old(
            alloc,
        ).memory(),
        r is Some ==> {
            let sizes = seq![2usize];
            let (dev, ops) = r->0;
            &&& dev == (BlockDevice {
                queue: (old(alloc).start() + request_index(old(alloc).pages(), sizes, 0)
                    * 4096) as u64,
                dev: ptr,
                idx: 0,
                ack_used_idx: 0,
                read_only: host_features & (1u32 << 5) != 0,
            })
            &&& ops@ == queues_placed(seq![dev.queue], 0)
            &&& final(alloc).pages() == after_requests(old(alloc).pages(), sizes)
            &&& final(alloc).memory() == cleared(old(alloc).pages(), old(alloc).memory(), sizes)
        },
{
    let more: Vec<usize> = Vec::new();
    proof {
        assert(crate::virtio::queue_sizes(1) + more@ =~= seq![2usize]);
    }
    match reserve_queues(alloc, 1, &more) {
        Some(addrs) => {
            let mut queues: Vec<u64> = Vec::new();
            queues.push(addrs[0]);
            proof {
                assert(queues@ =~= seq![addrs@[0]]);
            }
            let ops = finish_setup(&queues);
            Some(
                (
                    BlockDevice {
                        queue: addrs[0],
                        dev: ptr,
                        idx: 0,
                        ack_used_idx: 0,
                        read_only: host_features & (1u32 << VIRTIO_BLK_F_RO) != 0,
                    },
                    ops,
                ),
            )
        },
        None => None,
    }
}

} // verus!
