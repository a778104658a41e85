//! Events of input devices, as they are handed to processes.

use crate::elf::{le16, le32};
use crate::page::{after_requests, cleared, request_index, requests_fit, PageAllocator};
use crate::virtio::{
    finish_setup, offer, offered, put_descriptor, queues_placed, reserve_queues, ring_after,
    ring_distance, with_descriptor, Descriptor, Queue, RegisterOp, Ring, UsedElem,
    VIRTIO_DESC_F_WRITE,
};
use std::collections::VecDeque;
use vstd::prelude::*;

verus! {

/// Number of events that the driver keeps for a device.
pub const EVENT_BUFFER_ELEMENTS: usize = 64;

/// Size of an event in the memory of a process, in bytes.
pub const EVENT_SIZE: usize = 8;

#[derive(Clone, Copy, Debug, PartialEq, Eq, Structural)]
pub enum InputType {
    Empty,
    Abs(u32, u32, u32, u32, u32),
    Key(u32, u32),
}

/// The kinds of event.
#[derive(Clone, Copy, Debug, PartialEq, Eq, Structural)]
pub enum EventType {
    Syn,
    Key,
    Rel,
    Abs,
    Msc,
    Sw,
    Led,
    Snd,
    Rep,
    Ff,
    Pwr,
    FfStatus,
    Max,
}

impl EventType {
    pub open spec fn spec_val(self) -> u16 {
        match self {
            EventType::Syn => 0x00,
            EventType::Key => 0x01,
            EventType::Rel => 0x02,
            EventType::Abs => 0x03,
            EventType::Msc => 0x04,
            EventType::Sw => 0x05,
            EventType::Led => 0x11,
            EventType::Snd => 0x12,
            EventType::Rep => 0x14,
            EventType::Ff => 0x15,
            EventType::Pwr => 0x16,
            EventType::FfStatus => 0x17,
            EventType::Max => 0x1f,
        }
    }

    /// The kind as the device writes it.
    pub fn val(self) -> (r: u16)
        ensures
            r == self.spec_val(),
    {
        match self {
            EventType::Syn => 0x00,
            EventType::Key => 0x01,
            EventType::Rel => 0x02,
            EventType::Abs => 0x03,
            EventType::Msc => 0x04,
            EventType::Sw => 0x05,
            EventType::Led => 0x11,
            EventType::Snd => 0x12,
            EventType::Rep => 0x14,
            EventType::Ff => 0x15,
            EventType::Pwr => 0x16,
            EventType::FfStatus => 0x17,
            EventType::Max => 0x1f,
        }
    }
}

/// One event: its kind, a code and a value.
#[derive(Clone, Copy, Debug, PartialEq, Eq, Structural)]
pub struct Event {
    pub event_type: EventType,
    pub code: u16,
    pub value: u32,
}

impl Event {
    /// An event that says nothing.
    pub fn empty() -> (e: Event)
        ensures
            e == (Event { event_type: EventType::Syn, code: 0, value: 0 }),
    {
        Event { event_type: EventType::Syn, code: 0, value: 0 }
    }

    pub fn new(event_type: EventType, code: u16, value: u32) -> (e: Event)
        ensures
            e == (Event { event_type, code, value }),
    {
        Event { event_type, code, value }
    }
}

#[derive(Clone, Copy, Debug, PartialEq, Eq, Structural)]
pub enum ConfigSelect {
    UNSET,
    IdName,
    IdSerial,
    IdDevids,
    PropBits,
    EvBits,
    AbsInfo,
}

#[derive(Clone, Copy, Debug, PartialEq, Eq, Structural)]
pub struct AbsInfo {
    pub min: u32,
    pub max: u32,
    pub fuzz: u32,
    pub flat: u32,
    pub res: u32,
}

#[derive(Clone, Copy, Debug, PartialEq, Eq, Structural)]
pub struct DevIds {
    pub bustype: u16,
    pub vendor: u16,
    pub product: u16,
    pub version: u16,
}

/// The configuration space of an input device; `config` holds a string, a
/// bitmap, an `AbsInfo` or a `DevIds`, as `select` says.
#[derive(Clone, Copy, Debug)]
pub struct Config {
    pub select: ConfigSelect,
    pub subsel: u8,
    pub size: u8,
    pub reserved: [u8; 5],
    pub config: [u8; 128],
}

/// What the driver keeps of an input device.
#[derive(Clone, Copy, Debug, PartialEq, Eq, Structural)]
pub struct Device {
    pub event_queue: u64,
    pub status_queue: u64,
    pub dev: u64,
    pub event_idx: u16,
    pub event_ack_used_idx: u16,
    pub event_buffer: u64,
    pub status_idx: u16,
    pub status_ack_used_idx: u16,
    pub status_buffer: u64,
}

/// The kind of event that the device writes as `v`, if there is one.
pub open spec fn kind_of(v: int) -> Option<EventType> {
    if v == 0x00 {
        Some(EventType::Syn)
    } else if v == 0x01 {
        Some(EventType::Key)
    } else if v == 0x02 {
        Some(EventType::Rel)
    } else if v == 0x03 {
        Some(EventType::Abs)
    } else if v == 0x04 {
        Some(EventType::Msc)
    } else if v == 0x05 {
        Some(EventType::Sw)
    } else if v == 0x11 {
        Some(EventType::Led)
    } else if v == 0x12 {
        Some(EventType::Snd)
    } else if v == 0x14 {
        Some(EventType::Rep)
    } else if v == 0x15 {
        Some(EventType::Ff)
    } else if v == 0x16 {
        Some(EventType::Pwr)
    } else if v == 0x17 {
        Some(EventType::FfStatus)
    } else if v == 0x1f {
        Some(EventType::Max)
    } else {
        None
    }
}

/// See `kind_of`.
pub fn kind(v: u16) -> (r: Option<EventType>)
    ensures
        r == kind_of(v as int),
{
    if v == 0x00 {
        Some(EventType::Syn)
    } else if v == 0x01 {
        Some(EventType::Key)
    } else if v == 0x02 {
        Some(EventType::Rel)
    } else if v == 0x03 {
        Some(EventType::Abs)
    } else if v == 0x04 {
        Some(EventType::Msc)
    } else if v == 0x05 {
        Some(EventType::Sw)
    } else if v == 0x11 {
        Some(EventType::Led)
    } else if v == 0x12 {
        Some(EventType::Snd)
    } else if v == 0x14 {
        Some(EventType::Rep)
    } else if v == 0x15 {
        Some(EventType::Ff)
    } else if v == 0x16 {
        Some(EventType::Pwr)
    } else if v == 0x17 {
        Some(EventType::FfStatus)
    } else if v == 0x1f {
        Some(EventType::Max)
    } else {
        None
    }
}

/// The eight bytes of memory from `addr` on, if they all lie in the memory
/// of `alloc`.
pub open spec fn event_bytes_at(alloc: PageAllocator, addr: int) -> Option<Seq<u8>> {
    if alloc.start() <= addr && addr + 8 <= alloc.end() {
        Some(alloc.memory().subrange(addr - alloc.start(), addr - alloc.start() + 8))
    } else {
        None
    }
}

/// The event that the device has written at `addr`: its kind, its code and
/// its value, each with its low byte first. There is none where the bytes do
/// not lie in the memory of `alloc`, or name no kind of event.
pub open spec fn event_at(alloc: PageAllocator, addr: int) -> Option<Event> {
    match event_bytes_at(alloc, addr) {
        Some(b) => match kind_of(le16(b, 0)) {
            Some(t) => Some(
                Event { event_type: t, code: le16(b, 2) as u16, value: le32(b, 4) as u32 },
            ),
            None => None,
        },
        None => None,
    }
}

/// See `event_at`.
pub fn read_event(alloc: &PageAllocator, addr: u64) -> (r: Option<Event>)
    requires
        alloc.wf(),
    ensures
        r == event_at(*alloc, addr as int),
{
    if addr > u64::MAX - 8 {
        return None;
    }
    let mut bytes: Vec<u8> = Vec::new();
    let mut k: u64 = 0;
    while k < 8
        invariant
            k <= 8,
            addr <= u64::MAX - 8,
            alloc.wf(),
            bytes@.len() == k,
            k > 0 ==> alloc.in_memory(addr as int) && alloc.in_memory(addr + k - 1),
            forall|j: int|
                0 <= j < k ==> #[trigger] bytes@[j] == alloc.memory()[addr + j - alloc.start()],
        decreases 8 - k,
    {
        match alloc.read(addr + k) {
            Some(b) => {
                let ghost before = bytes@;
                bytes.push(b);
                proof {
                    assert forall|j: int| 0 <= j < k + 1 implies #[trigger] bytes@[j]
                        == alloc.memory()[addr + j - alloc.start()] by {
                        if j < k {
                            assert(bytes@[j] == before[j]);
                        }
                    }
                }
            },
            None => {
                return None;
            },
        }
        k = k + 1;
    }
    proof {
        assert(bytes@ =~= event_bytes_at(*alloc, addr as int)->0);
    }
    match kind(crate::elf::read16(&bytes, 0)) {
        Some(t) => Some(
            Event {
                event_type: t,
                code: crate::elf::read16(&bytes, 2),
                value: crate::elf::read32(&bytes, 4),
            },
        ),
        None => None,
    }
}

/// The ring `r` after the buffer at `addr` has been offered to the device
/// for an event, in the descriptor `idx`.
pub open spec fn repopulated(r: Ring, idx: u16, addr: u64) -> Ring {
    offered(
        with_descriptor(
            r,
            idx as int,
            Descriptor { addr, len: 8, flags: VIRTIO_DESC_F_WRITE, next: 0 },
        ),
        idx,
    )
}

/// Offers buffer number `buffer` of the event buffers of the device to the
/// device again.
pub fn repopulate_event(dev: &mut Device, queue: &mut Queue, buffer: u64)
    requires
        old(dev).event_idx < 128,
        old(dev).event_buffer + 8 * buffer <= u64::MAX,
    ensures
        *final(dev) == (Device { event_idx: ring_after(old(dev).event_idx, 1), ..*old(dev) }),
        final(queue).ring() == repopulated(
            old(queue).ring(),
            old(dev).event_idx,
            (old(dev).event_buffer + 8 * buffer) as u64,
        ),
        final(queue).device_side(*old(queue)),
{
    let desc = Descriptor {
        addr: dev.event_buffer + 8 * buffer,
        len: 8,
        flags: VIRTIO_DESC_F_WRITE,
        next: 0,
    };
    let head = dev.event_idx;
    dev.event_idx = put_descriptor(queue, head, desc);
    offer(queue, head);
}

/// What taking events from the device changes: the ring of the event queue,
/// the next free descriptor, and the events queued for the programs.
pub struct Taken {
    pub ring: Ring,
    pub idx: u16,
    pub keys: Seq<Event>,
    pub abs: Seq<Event>,
}

/// The state `s` after the event has been taken that the device has left in
/// the buffer of the descriptor `id`: the buffer is offered again, and an
/// event of a key or of a position is queued. An `id` that names no
/// descriptor changes nothing.
pub open spec fn event_taken(s: Taken, alloc: PageAllocator, buffer: u64, id: u32) -> Taken {
    if id >= 128 {
        s
    } else {
        let ring = repopulated(s.ring, s.idx, (buffer + 8 * id) as u64);
        let idx = ring_after(s.idx, 1);
        match event_at(alloc, s.ring.desc[id as int].addr as int) {
            Some(e) => if e.event_type == EventType::Key {
                Taken { ring, idx, keys: s.keys.push(e), abs: s.abs }
            } else if e.event_type == EventType::Abs {
                Taken { ring, idx, keys: s.keys, abs: s.abs.push(e) }
            } else {
                Taken { ring, idx, ..s }
            },
            None => Taken { ring, idx, ..s },
        }
    }
}

/// The state `s` after the `n` events have been taken, one after the other,
/// that the device has named in its used ring from the count `from` on.
pub open spec fn events_taken(
    s: Taken,
    alloc: PageAllocator,
    buffer: u64,
    used: Seq<UsedElem>,
    from: int,
    n: int,
) -> Taken
    decreases n,
{
    if n <= 0 {
        s
    } else {
        event_taken(
            events_taken(s, alloc, buffer, used, from, n - 1),
            alloc,
            buffer,
            used[(from + n - 1) % 128].id,
        )
    }
}

/// Takes the events that the device has written since the last look: each
/// buffer is offered to the device again, and the events of keys and of
/// positions are queued for the programs. What the device has finished with
/// in the status queue is only counted.
pub fn pending(
    dev: &mut Device,
    event_queue: &mut Queue,
    status_queue: &Queue,
    alloc: &PageAllocator,
    key_events: &mut VecDeque<Event>,
    abs_events: &mut VecDeque<Event>,
)
    requires
        alloc.wf(),
        old(dev).event_idx < 128,
        old(dev).event_buffer + 8 * 128 <= u64::MAX,
    ensures
        ({
            let t = events_taken(
                Taken {
                    ring: old(event_queue).ring(),
                    idx: old(dev).event_idx,
                    keys: old(key_events)@,
                    abs: old(abs_events)@,
                },
                *alloc,
                old(dev).event_buffer,
                old(event_queue).used.ring@,
                old(dev).event_ack_used_idx as int,
                ring_distance(old(dev).event_ack_used_idx, old(event_queue).used.idx),
            );
            &&& final(event_queue).ring() == t.ring
            &&& final(key_events)@ == t.keys
            &&& final(abs_events)@ == t.abs
            &&& *final(dev) == (Device {
                event_idx: t.idx,
                event_ack_used_idx: old(event_queue).used.idx,
                status_ack_used_idx: status_queue.used.idx,
                ..*old(dev)
            })
        }),
        final(event_queue).device_side(*old(event_queue)),
{
    let ghost from = dev.event_ack_used_idx as int;
    let ghost total = ring_distance(dev.event_ack_used_idx, event_queue.used.idx);
    let ghost start = Taken {
        ring: event_queue.ring(),
        idx: dev.event_idx,
        keys: key_events@,
        abs: abs_events@,
    };
    let ghost used = event_queue.used.ring@;
    let ghost buffer = dev.event_buffer;
    let mut done: u32 = 0;
    while dev.event_ack_used_idx != event_queue.used.idx
        invariant
            alloc.wf(),
            0 <= done <= total <= 0xffff,
            from == old(dev).event_ack_used_idx,
            used == old(event_queue).used.ring@,
            buffer == old(dev).event_buffer,
            buffer + 8 * 128 <= u64::MAX,
            event_queue.device_side(*old(event_queue)),
            total == ring_distance(old(dev).event_ack_used_idx, old(event_queue).used.idx),
            dev.event_ack_used_idx as int == (from + done) % 0x1_0000,
            ring_distance(dev.event_ack_used_idx, event_queue.used.idx) == total - done,
            dev.event_idx < 128,
            *dev == (Device {
                event_idx: dev.event_idx,
                event_ack_used_idx: dev.event_ack_used_idx,
                ..*old(dev)
            }),
            (Taken {
                ring: event_queue.ring(),
                idx: dev.event_idx,
                keys: key_events@,
                abs: abs_events@,
            }) == events_taken(start, *alloc, buffer, used, from, done as int),
        decreases total - done,
    {
        let slot: usize = (dev.event_ack_used_idx % 128) as usize;
        let id: u32 = event_queue.used.ring[slot].id;
        proof {
            assert(((from + done) % 0x1_0000) % 128 == (from + done) % 128) by (nonlinear_arith)
                requires
                    from + done >= 0,
            ;
        }
        if id < 128 {
            let event = read_event(alloc, event_queue.desc[id as usize].addr);
            repopulate_event(dev, event_queue, id as u64);
            match event {
                Some(e) => {
                    match e.event_type {
                        EventType::Key => {
                            key_events.push_back(e);
                        },
                        EventType::Abs => {
                            abs_events.push_back(e);
                        },
                        _ => {},
                    }
                },
                None => {},
            }
        }
        dev.event_ack_used_idx = dev.event_ack_used_idx.wrapping_add(1);
        done = done + 1;
    }
    dev.status_ack_used_idx = status_queue.used.idx;
}

/// The ring `r` after the first `n` event buffers from `buffer` on have
/// been offered to the device, in the descriptors from 0 on.
pub open spec fn buffers_offered(r: Ring, buffer: u64, n: int) -> Ring
    decreases n,
{
    if n <= 0 {
        r
    } else {
        repopulated(
            buffers_offered(r, buffer, n - 1),
            (n - 1) as u16,
            (buffer + 8 * (n - 1)) as u64,
        )
    }
}

/// The last part of the set-up of the input device whose registers are at
/// `ptr`: the memory for its two queues is reserved, and the 64 buffers
/// for events that stand from `event_buffer` on are offered to the device
/// in `event_queue`. The result holds what the driver keeps of the device
/// and what is left to write to its registers. `None`, with nothing
/// changed, where `alloc` has no room.
pub fn setup_input_device(
    ptr: u64,
    alloc: &mut PageAllocator,
    event_queue: &mut Queue,
    status_buffer: u64,
    event_buffer: u64,
) -> (r: Option<(Device, Vec<RegisterOp>)>)
    requires
        old(alloc).wf(),
        event_buffer + 8 * 128 <= u64::MAX,
    ensures
        final(alloc).wf(),
        final(alloc).start() == old(alloc).start(),
        final(alloc).num_pages() == old(alloc).num_pages(),
        final(event_queue).device_side(*old(event_queue)),
        r is Some <==> requests_fit(old(alloc).pages(), seq![2usize, 2usize]),
        r is None ==> {
            &&& final(alloc).pages() == old(alloc).pages()
            &&& final(alloc).memory() == old(alloc).memory()
            &&& final(event_queue).ring() == old(event_queue).ring()
        },
        r is Some ==> {
            let sizes = seq![2usize, 2usize];
            let (dev, ops) = r->0;
            &&& dev == (Device {
                event_queue: (old(alloc).start() + request_index(old(alloc).pages(), sizes, 0)
                    * 4096) as u64,
                status_queue: (old(alloc).start() + request_index(old(alloc).pages(), sizes, 1)
                    * 4096) as u64,
                dev: ptr,
                event_idx: 64,
                event_ack_used_idx: 0,
                event_buffer,
                status_idx: 0,
                status_ack_used_idx: 0,
                status_buffer,
            })
            &&& ops@ == queues_placed(seq![dev.event_queue, dev.status_queue], 0)
            &&& final(event_queue).ring() == buffers_offered(
                old(event_queue).ring(),
                event_buffer,
                64,
            )
            &&& final(alloc).pages() == after_requests(old(alloc).pages(), sizes)
            &&& final(alloc).memory() == cleared(old(alloc).pages(), old(alloc).memory(), sizes)
        },
{
    let more: Vec<usize> = Vec::new();
    proof {
        assert(crate::virtio::queue_sizes(2) + more@ =~= seq![2usize, 2usize]);
    }
    match reserve_queues(alloc, 2, &more) {
        Some(addrs) => {
            let mut queues: Vec<u64> = Vec::new();
            queues.push(addrs[0]);
            queues.push(addrs[1]);
            proof {
                assert(queues@ =~= seq![addrs@[0], addrs@[1]]);
            }
            let ops = finish_setup(&queues);
            let mut dev = Device {
                event_queue: addrs[0],
                status_queue: addrs[1],
                dev: ptr,
                event_idx: 0,
                event_ack_used_idx: 0,
                event_buffer,
                status_idx: 0,
                status_ack_used_idx: 0,
                status_buffer,
            };
            let ghost first = dev;
            let mut i: u64 = 0;
            while i < 64
                invariant
                    i <= 64,
                    event_buffer + 8 * 128 <= u64::MAX,
                    dev == (Device { event_idx: i as u16, ..first }),
                    first.event_buffer == event_buffer,
                    event_queue.device_side(*old(event_queue)),
                    event_queue.ring() == buffers_offered(
                        old(event_queue).ring(),
                        event_buffer,
                        i as int,
                    ),
                decreases 64 - i,
            {
                repopulate_event(&mut dev, event_queue, i);
                i = i + 1;
            }
            Some((dev, ops))
        },
        None => None,
    }
}

} // verus!
