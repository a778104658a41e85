//! What the kernel core knows of the virtual devices on the memory-mapped
//! bus: the layout of their registers and rings, the status bits of the
//! set-up protocol, and which device answers to which interrupt. The devices
//! themselves are driven outside the core.

use crate::cpu::{low32, spec_low32};
use crate::page::{after_requests, cleared, request_index, requests_fit, PageAllocator};
use vstd::prelude::*;

verus! {

pub const VIRTIO_F_RING_INDIRECT_DESC: u32 = 28;

pub const VIRTIO_F_RING_EVENT_IDX: u32 = 29;

pub const VIRTIO_F_VERSION_1: u32 = 32;

pub const VIRTIO_DESC_F_NEXT: u16 = 1;

pub const VIRTIO_DESC_F_WRITE: u16 = 2;

pub const VIRTIO_DESC_F_INDIRECT: u16 = 4;

pub const VIRTIO_AVAIL_F_NO_INTERRUPT: u16 = 1;

pub const VIRTIO_USED_F_NO_NOTIFY: u16 = 1;

/// Number of descriptors in a ring; a power of two.
pub const VIRTIO_RING_SIZE: usize = 128;

/// Address of the register window of the first device.
pub const MMIO_VIRTIO_START: u64 = 0x1000_1000;

/// Address of the register window of the last device.
pub const MMIO_VIRTIO_END: u64 = 0x1000_8000;

/// Distance between the register windows of two devices.
pub const MMIO_VIRTIO_STRIDE: u64 = 0x1000;

/// What the magic register of a device holds: `virt`, little-endian.
pub const MMIO_VIRTIO_MAGIC: u32 = 0x74_72_69_76;

/// One buffer handed to a device: its physical address and length, flags,
/// and the index of the descriptor that follows it in its chain.
#[derive(Clone, Copy, Debug, PartialEq, Eq, Structural)]
pub struct Descriptor {
    pub addr: u64,
    pub len: u32,
    pub flags: u16,
    pub next: u16,
}

/// The ring of descriptor chains that the driver offers to the device.
#[derive(Clone, Copy, Debug)]
pub struct Available {
    pub flags: u16,
    pub idx: u16,
    pub ring: [u16; 128],
    pub event: u16,
}

#[derive(Clone, Copy, Debug, PartialEq, Eq, Structural)]
pub struct UsedElem {
    pub id: u32,
    pub len: u32,
}

/// The ring of descriptor chains that the device has finished with.
#[derive(Clone, Copy, Debug)]
pub struct Used {
    pub flags: u16,
    pub idx: u16,
    pub ring: [UsedElem; 128],
    pub event: u16,
}

/// A queue as it lies in memory: the descriptors and the available ring in
/// one page, the used ring at the start of the next.
#[derive(Clone, Copy, Debug)]
pub struct Queue {
    pub desc: [Descriptor; 128],
    pub avail: Available,
    pub padding0: [u8; 1786],
    pub used: Used,
}

/// The registers of a device, by their offset in its window.
#[derive(Clone, Copy, Debug, PartialEq, Eq, Structural)]
pub enum MmioOffsets {
    MagicValue,
    Version,
    DeviceId,
    VendorId,
    HostFeatures,
    HostFeaturesSel,
    GuestFeatures,
    GuestFeaturesSel,
    GuestPageSize,
    QueueSel,
    QueueNumMax,
    QueueNum,
    QueueAlign,
    QueuePfn,
    QueueNotify,
    InterruptStatus,
    InterruptAck,
    Status,
    Config,
}

impl MmioOffsets {
    pub open spec fn spec_val(self) -> usize {
        match self {
            MmioOffsets::MagicValue => 0x000,
            MmioOffsets::Version => 0x004,
            MmioOffsets::DeviceId => 0x008,
            MmioOffsets::VendorId => 0x00c,
            MmioOffsets::HostFeatures => 0x010,
            MmioOffsets::HostFeaturesSel => 0x014,
            MmioOffsets::GuestFeatures => 0x020,
            MmioOffsets::GuestFeaturesSel => 0x024,
            MmioOffsets::GuestPageSize => 0x028,
            MmioOffsets::QueueSel => 0x030,
            MmioOffsets::QueueNumMax => 0x034,
            MmioOffsets::QueueNum => 0x038,
            MmioOffsets::QueueAlign => 0x03c,
            MmioOffsets::QueuePfn => 0x040,
            MmioOffsets::QueueNotify => 0x050,
            MmioOffsets::InterruptStatus => 0x060,
            MmioOffsets::InterruptAck => 0x064,
            MmioOffsets::Status => 0x070,
            MmioOffsets::Config => 0x100,
        }
    }

    /// Offset of the register in bytes.
    pub fn val(self) -> (r: usize)
        ensures
            r == self.spec_val(),
    {
        match self {
            MmioOffsets::MagicValue => 0x000,
            MmioOffsets::Version => 0x004,
            MmioOffsets::DeviceId => 0x008,
            MmioOffsets::VendorId => 0x00c,
            MmioOffsets::HostFeatures => 0x010,
            MmioOffsets::HostFeaturesSel => 0x014,
            MmioOffsets::GuestFeatures => 0x020,
            MmioOffsets::GuestFeaturesSel => 0x024,
            MmioOffsets::GuestPageSize => 0x028,
            MmioOffsets::QueueSel => 0x030,
            MmioOffsets::QueueNumMax => 0x034,
            MmioOffsets::QueueNum => 0x038,
            MmioOffsets::QueueAlign => 0x03c,
            MmioOffsets::QueuePfn => 0x040,
            MmioOffsets::QueueNotify => 0x050,
            MmioOffsets::InterruptStatus => 0x060,
            MmioOffsets::InterruptAck => 0x064,
            MmioOffsets::Status => 0x070,
            MmioOffsets::Config => 0x100,
        }
    }

    /// Offset of the register in units of `scale` bytes.
    pub fn scaled(self, scale: usize) -> (r: usize)
        requires
            scale != 0,
        ensures
            r == self.spec_val() / scale,
    {
        self.val() / scale
    }

    /// Offset of the register in 32-bit words.
    pub fn scale32(self) -> (r: usize)
        ensures
            r == self.spec_val() / 4,
    {
        self.scaled(4)
    }
}

/// The register window of a device, field by field.
#[derive(Clone, Copy, Debug)]
pub struct MmioDevice {
    pub magic_value: u32,
    pub version: u32,
    pub device_id: u32,
    pub vendor_id: u32,
    pub host_features: u32,
    pub host_features_sel: u32,
    pub rsv1: [u8; 8],
    pub guest_features: u32,
    pub guest_features_sel: u32,
    pub guest_page_size: u32,
    pub rsv2: [u8; 4],
    pub queue_sel: u32,
    pub queue_num_max: u32,
    pub queue_num: u32,
    pub queue_align: u32,
    pub queue_pfn: u64,
    pub rsv3: [u8; 8],
    pub queue_notify: u32,
    pub rsv4: [u8; 12],
    pub interrupt_status: u32,
    pub interrupt_ack: u32,
    pub rsv5: [u8; 8],
    pub status: u32,
}

/// The kinds of device, by what the device register holds.
#[derive(Clone, Copy, Debug, PartialEq, Eq, Structural)]
pub enum DeviceTypes {
    /// No device.
    Absent,
    Network,
    Block,
    Console,
    Entropy,
    Gpu,
    Input,
    Memory,
}

impl DeviceTypes {
    /// The kind of device that the device register announces with `id`.
    pub open spec fn spec_from_id(id: u32) -> Option<DeviceTypes> {
        if id == 0 {
            Some(DeviceTypes::Absent)
        } else if id == 1 {
            Some(DeviceTypes::Network)
        } else if id == 2 {
            Some(DeviceTypes::Block)
        } else if id == 3 {
            Some(DeviceTypes::Console)
        } else if id == 4 {
            Some(DeviceTypes::Entropy)
        } else if id == 16 {
            Some(DeviceTypes::Gpu)
        } else if id == 18 {
            Some(DeviceTypes::Input)
        } else if id == 24 {
            Some(DeviceTypes::Memory)
        } else {
            None
        }
    }

    pub fn from_id(id: u32) -> (r: Option<DeviceTypes>)
        ensures
            r == Self::spec_from_id(id),
    {
        if id == 0 {
            Some(DeviceTypes::Absent)
        } else if id == 1 {
            Some(DeviceTypes::Network)
        } else if id == 2 {
            Some(DeviceTypes::Block)
        } else if id == 3 {
            Some(DeviceTypes::Console)
        } else if id == 4 {
            Some(DeviceTypes::Entropy)
        } else if id == 16 {
            Some(DeviceTypes::Gpu)
        } else if id == 18 {
            Some(DeviceTypes::Input)
        } else if id == 24 {
            Some(DeviceTypes::Memory)
        } else {
            None
        }
    }
}

/// The bits of the status register.
#[derive(Clone, Copy, Debug, PartialEq, Eq, Structural)]
pub enum StatusField {
    Acknowledge,
    Driver,
    Failed,
    FeaturesOk,
    DriverOk,
    DeviceNeedsReset,
}

impl StatusField {
    pub open spec fn spec_val(self) -> u32 {
        match self {
            StatusField::Acknowledge => 1,
            StatusField::Driver => 2,
            StatusField::Failed => 128,
            StatusField::FeaturesOk => 8,
            StatusField::DriverOk => 4,
            StatusField::DeviceNeedsReset => 64,
        }
    }

    /// The bit `bit` is set in the status `sf`.
    pub open spec fn spec_test(sf: u32, bit: StatusField) -> bool {
        sf & bit.spec_val() != 0
    }

    pub fn val(self) -> (r: usize)
        ensures
            r == self.spec_val(),
    {
        match self {
            StatusField::Acknowledge => 1,
            StatusField::Driver => 2,
            StatusField::Failed => 128,
            StatusField::FeaturesOk => 8,
            StatusField::DriverOk => 4,
            StatusField::DeviceNeedsReset => 64,
        }
    }

    pub fn val32(self) -> (r: u32)
        ensures
            r == self.spec_val(),
    {
        match self {
            StatusField::Acknowledge => 1,
            StatusField::Driver => 2,
            StatusField::Failed => 128,
            StatusField::FeaturesOk => 8,
            StatusField::DriverOk => 4,
            StatusField::DeviceNeedsReset => 64,
        }
    }

    /// Whether the bit `bit` is set in the status `sf`.
    pub fn test(sf: u32, bit: StatusField) -> (r: bool)
        ensures
            r == Self::spec_test(sf, bit),
    {
        sf & bit.val32() != 0
    }

    pub fn is_failed(sf: u32) -> (r: bool)
        ensures
            r == Self::spec_test(sf, StatusField::Failed),
    {
        StatusField::test(sf, StatusField::Failed)
    }

    pub fn needs_reset(sf: u32) -> (r: bool)
        ensures
            r == Self::spec_test(sf, StatusField::DeviceNeedsReset),
    {
        StatusField::test(sf, StatusField::DeviceNeedsReset)
    }

    pub fn driver_ok(sf: u32) -> (r: bool)
        ensures
            r == Self::spec_test(sf, StatusField::DriverOk),
    {
        StatusField::test(sf, StatusField::DriverOk)
    }

    pub fn features_ok(sf: u32) -> (r: bool)
        ensures
            r == Self::spec_test(sf, StatusField::FeaturesOk),
    {
        StatusField::test(sf, StatusField::FeaturesOk)
    }
}

/// A device that was found on the bus.
#[derive(Clone, Copy, Debug, PartialEq, Eq, Structural)]
pub struct VirtioDevice {
    pub devtype: DeviceTypes,
}

impl VirtioDevice {
    pub fn new() -> (d: VirtioDevice)
        ensures
            d.devtype == DeviceTypes::Absent,
    {
        VirtioDevice { devtype: DeviceTypes::Absent }
    }

    pub fn new_with(devtype: DeviceTypes) -> (d: VirtioDevice)
        ensures
            d.devtype == devtype,
    {
        VirtioDevice { devtype }
    }
}

/// What probing one register window has found.
#[derive(Clone, Copy, Debug, PartialEq, Eq, Structural)]
pub enum Probe {
    /// The window holds no device of this bus.
    NotVirtio,
    /// No device is connected to the window.
    NotConnected,
    /// A device of a kind that has a driver; the driver has to set it up.
    Device(DeviceTypes),
    /// A device of a kind that has no driver.
    Unknown,
}

/// What a register window holds whose magic register reads `magic` and
/// whose device register reads `device_id`.
pub open spec fn spec_probe(magic: u32, device_id: u32) -> Probe {
    if magic != MMIO_VIRTIO_MAGIC {
        Probe::NotVirtio
    } else if device_id == 0 {
        Probe::NotConnected
    } else if device_id == 1 {
        Probe::Device(DeviceTypes::Network)
    } else if device_id == 2 {
        Probe::Device(DeviceTypes::Block)
    } else if device_id == 4 {
        Probe::Device(DeviceTypes::Entropy)
    } else if device_id == 16 {
        Probe::Device(DeviceTypes::Gpu)
    } else if device_id == 18 {
        Probe::Device(DeviceTypes::Input)
    } else {
        Probe::Unknown
    }
}

/// Classifies the register window whose magic register reads `magic` and
/// whose device register reads `device_id`.
pub fn probe(magic: u32, device_id: u32) -> (r: Probe)
    ensures
        r == spec_probe(magic, device_id),
{
    if magic != MMIO_VIRTIO_MAGIC {
        Probe::NotVirtio
    } else if device_id == 0 {
        Probe::NotConnected
    } else if device_id == 1 {
        Probe::Device(DeviceTypes::Network)
    } else if device_id == 2 {
        Probe::Device(DeviceTypes::Block)
    } else if device_id == 4 {
        Probe::Device(DeviceTypes::Entropy)
    } else if device_id == 16 {
        Probe::Device(DeviceTypes::Gpu)
    } else if device_id == 18 {
        Probe::Device(DeviceTypes::Input)
    } else {
        Probe::Unknown
    }
}

/// Index, among the eight devices of the bus, of the device whose register
/// window stands at `addr`.
pub fn device_index(addr: u64) -> (idx: usize)
    requires
        MMIO_VIRTIO_START <= addr <= MMIO_VIRTIO_END,
    ensures
        idx == (addr - MMIO_VIRTIO_START) / 4096,
        idx < 8,
{
    ((addr - MMIO_VIRTIO_START) / 4096) as usize
}

/// There is no driver for network devices: the set-up fails.
pub fn setup_network_device(_ptr: u64) -> (ok: bool)
    ensures
        !ok,
{
    false
}

/// Which driver an interrupt of the bus belongs to.
#[derive(Clone, Copy, Debug, PartialEq, Eq, Structural)]
pub enum DeviceInterrupt {
    /// The block device with the index given.
    Block(usize),
    /// The display with the index given.
    Gpu(usize),
    /// The input device with the index given.
    Input(usize),
    /// A device that raises no interrupts has raised one.
    Invalid,
    /// No device is known for the interrupt.
    Spurious,
}

/// The driver that the interrupt `interrupt` belongs to, with the devices
/// `devices` on the bus.
pub open spec fn spec_handle_interrupt(
    devices: Seq<Option<VirtioDevice>>,
    interrupt: u32,
) -> DeviceInterrupt {
    let idx = interrupt - 1;
    match devices[idx] {
        Some(vd) => match vd.devtype {
            DeviceTypes::Block => DeviceInterrupt::Block(idx as usize),
            DeviceTypes::Gpu => DeviceInterrupt::Gpu(idx as usize),
            DeviceTypes::Input => DeviceInterrupt::Input(idx as usize),
            _ => DeviceInterrupt::Invalid,
        },
        None => DeviceInterrupt::Spurious,
    }
}

/// Finds the driver for the interrupt `interrupt`, one of the eight of the
/// bus.
pub fn handle_interrupt(devices: &[Option<VirtioDevice>; 8], interrupt: u32) -> (r:
    DeviceInterrupt)
    requires
        1 <= interrupt <= 8,
    ensures
        r == spec_handle_interrupt(devices@, interrupt),
{
    let idx: usize = interrupt as usize - 1;
    match devices[idx] {
        Some(vd) => match vd.devtype {
            DeviceTypes::Block => DeviceInterrupt::Block(idx),
            DeviceTypes::Gpu => DeviceInterrupt::Gpu(idx),
            DeviceTypes::Input => DeviceInterrupt::Input(idx),
            _ => DeviceInterrupt::Invalid,
        },
        None => DeviceInterrupt::Spurious,
    }
}

/// What the driver writes of a queue: the descriptors, and the ring of the
/// chains that it offers to the device.
pub struct Ring {
    pub desc: Seq<Descriptor>,
    pub avail: Seq<u16>,
    pub avail_idx: u16,
}

impl Queue {
    /// See `Ring`.
    pub open spec fn ring(&self) -> Ring {
        Ring { desc: self.desc@, avail: self.avail.ring@, avail_idx: self.avail.idx }
    }

    /// What the driver does not write of the queue is as in `other`.
    pub open spec fn device_side(&self, other: Queue) -> bool {
        &&& self.avail.flags == other.avail.flags
        &&& self.avail.event == other.avail.event
        &&& self.padding0 == other.padding0
        &&& self.used == other.used
    }
}

/// The ring `r` with the descriptor `d` at the index `idx`.
pub open spec fn with_descriptor(r: Ring, idx: int, d: Descriptor) -> Ring {
    Ring { desc: r.desc.update(idx, d), ..r }
}

/// The ring `r` after the chain that begins with the descriptor `head` has
/// been offered to the device.
pub open spec fn offered(r: Ring, head: u16) -> Ring {
    Ring {
        avail: r.avail.update((r.avail_idx % 128) as int, head),
        avail_idx: if r.avail_idx == u16::MAX {
            0u16
        } else {
            (r.avail_idx + 1) as u16
        },
        ..r
    }
}

/// Puts `desc` into the descriptor `idx` of the queue; the result is the
/// index that follows `idx` in the ring.
pub fn put_descriptor(queue: &mut Queue, idx: u16, desc: Descriptor) -> (next: u16)
    requires
        idx < 128,
    ensures
        final(queue).ring() == with_descriptor(old(queue).ring(), idx as int, desc),
        final(queue).device_side(*old(queue)),
        next == (idx + 1) % 128,
{
    queue.desc[idx as usize] = desc;
    (idx + 1) % 128
}

/// Offers the chain that begins with the descriptor `head` to the device.
pub fn offer(queue: &mut Queue, head: u16)
    ensures
        final(queue).ring() == offered(old(queue).ring(), head),
        final(queue).device_side(*old(queue)),
{
    let slot: usize = (queue.avail.idx % 128) as usize;
    queue.avail.ring[slot] = head;
    queue.avail.idx = queue.avail.idx.wrapping_add(1);
}

/// The index `n` places behind `idx` in the ring.
pub open spec fn ring_after(idx: u16, n: int) -> u16 {
    ((idx + n) % 128) as u16
}

/// Number of entries of the used ring from the count `from` up to the count
/// `to`; the counts run round in 16 bits.
pub open spec fn ring_distance(from: u16, to: u16) -> int {
    if to >= from {
        to - from
    } else {
        to - from + 0x1_0000
    }
}

/// One step of the driver at the registers of a device: a value to write,
/// or a register to read.
#[derive(Clone, Copy, Debug, PartialEq, Eq, Structural)]
pub enum RegisterOp {
    Write(MmioOffsets, u32),
    Read(MmioOffsets),
}

/// Number of pages that a queue takes in memory.
pub const QUEUE_PAGES: usize = 2;

/// How the set-up of a device begins: the device is reset, the driver
/// says that it has seen the device and that it can drive it, and asks for
/// the features of the device.
pub open spec fn handshake() -> Seq<RegisterOp> {
    seq![
        RegisterOp::Write(MmioOffsets::Status, 0),
        RegisterOp::Write(MmioOffsets::Status, 1),
        RegisterOp::Write(MmioOffsets::Status, 5),
        RegisterOp::Read(MmioOffsets::HostFeatures),
    ]
}

/// See `handshake`.
pub fn begin_setup() -> (ops: Vec<RegisterOp>)
    ensures
        ops@ == handshake(),
{
    let mut ops: Vec<RegisterOp> = Vec::new();
    ops.push(RegisterOp::Write(MmioOffsets::Status, 0));
    let mut status_bits = StatusField::Acknowledge.val32();
    ops.push(RegisterOp::Write(MmioOffsets::Status, status_bits));
    proof {
        assert(1u32 | 4u32 == 5u32) by (bit_vector);
    }
    status_bits = status_bits | StatusField::DriverOk.val32();
    ops.push(RegisterOp::Write(MmioOffsets::Status, status_bits));
    ops.push(RegisterOp::Read(MmioOffsets::HostFeatures));
    proof {
        assert(ops@ =~= handshake());
    }
    ops
}

/// The features that the driver of a device of the kind `kind` takes of the
/// features `host` that the device offers: all of them, but for a block
/// device that it is read-only, and for an input device the event index of
/// the rings.
pub open spec fn accepted_features(kind: DeviceTypes, host: u32) -> u32 {
    match kind {
        DeviceTypes::Block => host & !(1u32 << 5),
        DeviceTypes::Input => host & !(1u32 << 29),
        _ => host,
    }
}

/// The second part of the set-up: the driver names the features that it
/// takes, says that it has done so, and reads the status of the device.
pub fn offer_features(kind: DeviceTypes, host: u32) -> (ops: Vec<RegisterOp>)
    ensures
        ops@ == seq![
            RegisterOp::Write(MmioOffsets::GuestFeatures, accepted_features(kind, host)),
            RegisterOp::Write(MmioOffsets::Status, 13),
            RegisterOp::Read(MmioOffsets::Status),
        ],
{
    let guest: u32 = match kind {
        DeviceTypes::Block => host & !(1u32 << 5),
        DeviceTypes::Input => host & !(1u32 << 29),
        _ => host,
    };
    let mut ops: Vec<RegisterOp> = Vec::new();
    ops.push(RegisterOp::Write(MmioOffsets::GuestFeatures, guest));
    ops.push(RegisterOp::Write(MmioOffsets::Status, 13));
    ops.push(RegisterOp::Read(MmioOffsets::Status));
    ops
}

/// The third part of the set-up, with the status `status` that the device
/// has answered. A device that has not kept the bit for the features is
/// told that the set-up has failed. Else the driver reads how long a queue
/// may be, and says how long its queues are.
pub fn check_features(status: u32) -> (r: (bool, Vec<RegisterOp>))
    ensures
        r.0 == StatusField::spec_test(status, StatusField::FeaturesOk),
        r.0 ==> r.1@ == seq![
            RegisterOp::Read(MmioOffsets::QueueNumMax),
            RegisterOp::Write(MmioOffsets::QueueNum, 128),
        ],
        !r.0 ==> r.1@ == seq![RegisterOp::Write(MmioOffsets::Status, 128)],
{
    let mut ops: Vec<RegisterOp> = Vec::new();
    if StatusField::features_ok(status) {
        ops.push(RegisterOp::Read(MmioOffsets::QueueNumMax));
        ops.push(RegisterOp::Write(MmioOffsets::QueueNum, 128));
        (true, ops)
    } else {
        ops.push(RegisterOp::Write(MmioOffsets::Status, StatusField::Failed.val32()));
        (false, ops)
    }
}

/// The device takes queues as long as those of the driver.
pub fn queue_fits(qnmax: u32) -> (r: bool)
    ensures
        r == (qnmax >= 128),
{
    !(128 > qnmax)
}

/// How the device is told of its queue number `sel` at the address
/// `queue`: by the number of its first page, counted in 32 bits.
pub open spec fn queue_placed(sel: u32, queue: u64) -> Seq<RegisterOp> {
    seq![
        RegisterOp::Write(MmioOffsets::QueueSel, sel),
        RegisterOp::Write(MmioOffsets::GuestPageSize, 4096),
        RegisterOp::Write(MmioOffsets::QueuePfn, spec_low32(queue) / 4096),
    ]
}

/// How the set-up of a device with the queues `queues` ends, from queue
/// number `k` on: the device is told of each queue, and then that the
/// driver is ready.
pub open spec fn queues_placed(queues: Seq<u64>, k: int) -> Seq<RegisterOp>
    decreases queues.len() - k,
{
    if k >= queues.len() {
        seq![RegisterOp::Write(MmioOffsets::Status, 13)]
    } else {
        queue_placed(k as u32, queues[k]) + queues_placed(queues, k + 1)
    }
}

/// See `queues_placed`.
pub fn finish_setup(queues: &Vec<u64>) -> (ops: Vec<RegisterOp>)
    requires
        queues@.len() <= 8,
    ensures
        ops@ == queues_placed(queues@, 0),
{
    let count = queues.len();
    let mut ops: Vec<RegisterOp> = Vec::new();
    ops.push(RegisterOp::Write(MmioOffsets::Status, 13));
    let mut k: usize = count;
    while k > 0
        invariant
            k <= count,
            count == queues@.len(),
            count <= 8,
            ops@ == queues_placed(queues@, k as int),
        decreases k,
    {
        k = k - 1;
        let ghost rest = ops@;
        ops.insert(0, RegisterOp::Write(MmioOffsets::QueuePfn, low32(queues[k]) / 4096));
        ops.insert(0, RegisterOp::Write(MmioOffsets::GuestPageSize, 4096));
        ops.insert(0, RegisterOp::Write(MmioOffsets::QueueSel, k as u32));
        proof {
            assert(ops@ =~= queue_placed(k as u32, queues@[k as int]) + rest);
        }
    }
    ops
}

/// Reserves the pages for the queues of a device, and with them as many
/// runs of pages as `more` names, all cleared; `None`, with nothing
/// changed, where there is no room for all of them. The result holds the
/// addresses, those of the queues first.
pub fn reserve_queues(alloc: &mut PageAllocator, queues: usize, more: &Vec<usize>) -> (r: Option<
    Vec<u64>,
>)
    requires
        old(alloc).wf(),
        queues <= 8,
        forall|k: int| 0 <= k < more@.len() ==> more@[k] >= 1,
    ensures
        final(alloc).wf(),
        final(alloc).start() == old(alloc).start(),
        final(alloc).num_pages() == old(alloc).num_pages(),
        r is Some <==> requests_fit(old(alloc).pages(), queue_sizes(queues as int) + more@),
        r is None ==> final(alloc).pages() == old(alloc).pages() && final(alloc).memory() == old(
            alloc,
        ).memory(),
        r is Some ==> {
            let sizes = queue_sizes(queues as int) + more@;
            let addrs = r->0@;
            &&& addrs.len() == sizes.len()
            &&& forall|k: int|
                0 <= k < sizes.len() ==> #[trigger] addrs[k] == old(alloc).start() + request_index(
                    old(alloc).pages(),
                    sizes,
                    k,
                ) * 4096
            &&& final(alloc).pages() == after_requests(old(alloc).pages(), sizes)
            &&& final(alloc).memory() == cleared(old(alloc).pages(), old(alloc).memory(), sizes)
        },
{
    let mut sizes: Vec<usize> = Vec::new();
    let mut k: usize = 0;
    while k < queues
        invariant
            k <= queues,
            sizes@ == queue_sizes(k as int),
        decreases queues - k,
    {
        sizes.push(QUEUE_PAGES);
        proof {
            assert(sizes@ =~= queue_sizes(k + 1));
        }
        k = k + 1;
    }
    let count = more.len();
    let mut j: usize = 0;
    while j < count
        invariant
            j <= count,
            count == more@.len(),
            sizes@ == queue_sizes(queues as int) + more@.take(j as int),
        decreases count - j,
    {
        sizes.push(more[j]);
        proof {
            assert(sizes@ =~= queue_sizes(queues as int) + more@.take(j + 1));
        }
        j = j + 1;
    }
    proof {
        assert(more@.take(count as int) =~= more@);
    }
    alloc.reserve(&sizes)
}

/// The numbers of pages of `n` queues.
pub open spec fn queue_sizes(n: int) -> Seq<usize> {
    Seq::new(n as nat, |k: int| 2usize)
}

} // verus!
