//! Drawing into the frame buffer of a display.
//!
//! The frame buffer lies in the memory of the page allocator: four bytes a
//! pixel, row after row. A pixel whose bytes do not all lie in that memory
//! is not drawn.

use crate::kmem::{freed_all, kfree, Kmem};
use crate::page::{after_requests, cleared, request_index, requests_fit, written, PageAllocator};
use crate::virtio::{
    finish_setup, offer, offered, put_descriptor, queues_placed, reserve_queues, ring_after,
    ring_distance, with_descriptor, Descriptor, Queue, RegisterOp, Ring, VIRTIO_DESC_F_NEXT,
    VIRTIO_DESC_F_WRITE,
};
use vstd::prelude::*;

verus! {

#[derive(Clone, Copy, Debug, PartialEq, Eq, Structural)]
pub struct Rect {
    pub x: u32,
    pub y: u32,
    pub width: u32,
    pub height: u32,
}

impl Rect {
    pub fn new(x: u32, y: u32, width: u32, height: u32) -> (r: Rect)
        ensures
            r == (Rect { x, y, width, height }),
    {
        Rect { x, y, width, height }
    }
}

#[derive(Clone, Copy, Debug, PartialEq, Eq, Structural)]
pub struct Pixel {
    pub r: u8,
    pub g: u8,
    pub b: u8,
    pub a: u8,
}

impl Pixel {
    pub fn new(r: u8, g: u8, b: u8, a: u8) -> (p: Pixel)
        ensures
            p == (Pixel { r, g, b, a }),
    {
        Pixel { r, g, b, a }
    }

    /// The four bytes of the pixel in memory.
    pub open spec fn bytes(self) -> Seq<u8> {
        seq![self.r, self.g, self.b, self.a]
    }
}

/// What the driver keeps of a display.
#[derive(Clone, Copy, Debug, PartialEq, Eq, Structural)]
pub struct Device {
    pub queue: u64,
    pub dev: u64,
    pub idx: u16,
    pub ack_used_idx: u16,
    pub framebuffer: u64,
    pub width: u32,
    pub height: u32,
}

impl Device {
    /// A display of 640 by 480 pixels that is not set up.
    pub fn new() -> (d: Device)
        ensures
            d == (Device {
                queue: 0,
                dev: 0,
                idx: 0,
                ack_used_idx: 0,
                framebuffer: 0,
                width: 640,
                height: 480,
            }),
    {
        Device {
            queue: 0,
            dev: 0,
            idx: 0,
            ack_used_idx: 0,
            framebuffer: 0,
            width: 640,
            height: 480,
        }
    }

    pub fn get_framebuffer(&self) -> (r: u64)
        ensures
            r == self.framebuffer,
    {
        self.framebuffer
    }

    pub fn get_width(&self) -> (r: u32)
        ensures
            r == self.width,
    {
        self.width
    }

    pub fn get_height(&self) -> (r: u32)
        ensures
            r == self.height,
    {
        self.height
    }
}

/// `memory` with the pixel `color` at the offset `at`, if the four bytes
/// from `at` on lie in it.
pub open spec fn put_pixel(memory: Seq<u8>, at: int, color: Pixel) -> Seq<u8> {
    if 0 <= at && at + 4 <= memory.len() {
        written(memory, at, color.bytes())
    } else {
        memory
    }
}

/// `memory` with the first `cols` pixels from column `x` on of the row
/// `row` drawn in `color`; the frame buffer begins at the offset `fb` and
/// has `width` pixels in a row.
pub open spec fn row_painted(
    memory: Seq<u8>,
    fb: int,
    width: int,
    row: int,
    x: int,
    cols: int,
    color: Pixel,
) -> Seq<u8>
    decreases cols,
{
    if cols <= 0 {
        memory
    } else {
        put_pixel(
            row_painted(memory, fb, width, row, x, cols - 1, color),
            fb + 4 * (row * width + x + cols - 1),
            color,
        )
    }
}

/// `memory` with the first `rows` rows of the rectangle `rect` drawn in
/// `color`.
pub open spec fn rect_painted(
    memory: Seq<u8>,
    fb: int,
    width: int,
    rect: Rect,
    rows: int,
    color: Pixel,
) -> Seq<u8>
    decreases rows,
{
    if rows <= 0 {
        memory
    } else {
        row_painted(
            rect_painted(memory, fb, width, rect, rows - 1, color),
            fb,
            width,
            rect.y + rows - 1,
            rect.x as int,
            rect.width as int,
            color,
        )
    }
}

/// Draws the rectangle `rect` in `color`, row by row from the top and
/// pixel by pixel from the left.
pub fn fill_rect(dev: &Device, alloc: &mut PageAllocator, rect: Rect, color: Pixel)
    requires
        old(alloc).wf(),
        rect.x + rect.width <= u32::MAX,
        rect.y + rect.height <= u32::MAX,
    ensures
        final(alloc).wf(),
        final(alloc).start() == old(alloc).start(),
        final(alloc).pages() == old(alloc).pages(),
        final(alloc).memory() == rect_painted(
            old(alloc).memory(),
            dev.framebuffer - old(alloc).start(),
            dev.width as int,
            rect,
            rect.height as int,
            color,
        ),
{
    let mut bytes: Vec<u8> = Vec::new();
    bytes.push(color.r);
    bytes.push(color.g);
    bytes.push(color.b);
    bytes.push(color.a);
    proof {
        assert(bytes@ =~= color.bytes());
    }
    let ghost fb = dev.framebuffer - alloc.start();
    let ghost m0 = alloc.memory();
    let size = alloc.len();
    let mut i: u32 = 0;
    while i < rect.height
        invariant
            i <= rect.height,
            rect.x + rect.width <= u32::MAX,
            rect.y + rect.height <= u32::MAX,
            bytes@ == color.bytes(),
            alloc.wf(),
            alloc.start() == old(alloc).start(),
            alloc.pages() == old(alloc).pages(),
            fb == dev.framebuffer - alloc.start(),
            alloc.memory() == rect_painted(m0, fb, dev.width as int, rect, i as int, color),
        decreases rect.height - i,
    {
        let row: u64 = (rect.y + i) as u64;
        let ghost m1 = alloc.memory();
        let mut j: u32 = 0;
        while j < rect.width
            invariant
                j <= rect.width,
                rect.x + rect.width <= u32::MAX,
                row == rect.y + i,
                row <= u32::MAX,
                bytes@ == color.bytes(),
                alloc.wf(),
                alloc.start() == old(alloc).start(),
                alloc.pages() == old(alloc).pages(),
                fb == dev.framebuffer - alloc.start(),
                alloc.memory() == row_painted(
                    m1,
                    fb,
                    dev.width as int,
                    row as int,
                    rect.x as int,
                    j as int,
                    color,
                ),
            decreases rect.width - j,
        {
            let col: u64 = (rect.x + j) as u64;
            let ghost at = fb + 4 * (row * dev.width + col);
            proof {
                assert(0 <= row * dev.width <= 0xffff_ffff * 0xffff_ffff) by (nonlinear_arith)
                    requires
                        0 <= row <= 0xffff_ffff,
                        0 <= dev.width <= 0xffff_ffff,
                ;
            }
            let pixel: u64 = row * (dev.width as u64) + col;
            // a pixel beyond the address space is beyond the memory
            let addr = if pixel <= (u64::MAX - dev.framebuffer) / 4 {
                Some(dev.framebuffer + 4 * pixel)
            } else {
                None
            };
            match addr {
                Some(a) => {
                    let _ = alloc.store(a, &bytes);
                },
                None => {},
            }
            j = j + 1;
        }
        i = i + 1;
    }
}

/// Draws the four sides of the rectangle `rect` in `color`, `size` pixels
/// thick: the top, the bottom, the left and the right side, in this order.
/// The bottom side lies below the rectangle and the right side to the right
/// of it.
pub fn stroke_rect(dev: &Device, alloc: &mut PageAllocator, rect: Rect, color: Pixel, size: u32)
    requires
        old(alloc).wf(),
        rect.x + rect.width + size <= u32::MAX,
        rect.y + rect.height + size <= u32::MAX,
    ensures
        final(alloc).wf(),
        final(alloc).start() == old(alloc).start(),
        final(alloc).pages() == old(alloc).pages(),
        final(alloc).memory() == stroked(
            old(alloc).memory(),
            dev.framebuffer - old(alloc).start(),
            dev.width as int,
            rect,
            color,
            size,
        ),
{
    fill_rect(dev, alloc, Rect::new(rect.x, rect.y, rect.width, size), color);
    fill_rect(dev, alloc, Rect::new(rect.x, rect.y + rect.height, rect.width, size), color);
    fill_rect(dev, alloc, Rect::new(rect.x, rect.y, size, rect.height), color);
    fill_rect(
        dev,
        alloc,
        Rect::new(rect.x + rect.width, rect.y, size, rect.height + size),
        color,
    );
}

/// `memory` with the rectangle `rect` drawn in `color`.
pub open spec fn filled(memory: Seq<u8>, fb: int, width: int, rect: Rect, color: Pixel) -> Seq<u8> {
    rect_painted(memory, fb, width, rect, rect.height as int, color)
}

/// `memory` with the four sides of `rect` drawn as `stroke_rect` draws
/// them.
pub open spec fn stroked(
    memory: Seq<u8>,
    fb: int,
    width: int,
    rect: Rect,
    color: Pixel,
    size: u32,
) -> Seq<u8> {
    let top = Rect { x: rect.x, y: rect.y, width: rect.width, height: size };
    let bottom = Rect {
        x: rect.x,
        y: (rect.y + rect.height) as u32,
        width: rect.width,
        height: size,
    };
    let left = Rect { x: rect.x, y: rect.y, width: size, height: rect.height };
    let right = Rect {
        x: (rect.x + rect.width) as u32,
        y: rect.y,
        width: size,
        height: (rect.height + size) as u32,
    };
    let with_top = filled(memory, fb, width, top, color);
    let with_bottom = filled(with_top, fb, width, bottom, color);
    let with_left = filled(with_bottom, fb, width, left, color);
    filled(with_left, fb, width, right, color)
}

/// The kinds of commands and answers of a display.
#[derive(Clone, Copy, Debug, PartialEq, Eq, Structural)]
pub enum CtrlType {
    CmdGetDisplayInfo,
    CmdResourceCreate2d,
    CmdResourceUref,
    CmdSetScanout,
    CmdResourceFlush,
    CmdTransferToHost2d,
    CmdResourceAttachBacking,
    CmdResourceDetachBacking,
    CmdGetCapsetInfo,
    CmdGetCapset,
    CmdGetEdid,
    CmdUpdateCursor,
    CmdMoveCursor,
    RespOkNoData,
    RespOkDisplayInfo,
    RespOkCapsetInfo,
    RespOkCapset,
    RespOkEdid,
    RespErrUnspec,
    RespErrOutOfMemory,
    RespErrInvalidScanoutId,
    RespErrInvalidResourceId,
    RespErrInvalidContextId,
    RespErrInvalidParameter,
}

impl CtrlType {
    pub open spec fn spec_val(self) -> u32 {
        match self {
            CtrlType::CmdGetDisplayInfo => 0x0100,
            CtrlType::CmdResourceCreate2d => 0x0101,
            CtrlType::CmdResourceUref => 0x0102,
            CtrlType::CmdSetScanout => 0x0103,
            CtrlType::CmdResourceFlush => 0x0104,
            CtrlType::CmdTransferToHost2d => 0x0105,
            CtrlType::CmdResourceAttachBacking => 0x0106,
            CtrlType::CmdResourceDetachBacking => 0x0107,
            CtrlType::CmdGetCapsetInfo => 0x0108,
            CtrlType::CmdGetCapset => 0x0109,
            CtrlType::CmdGetEdid => 0x010a,
            CtrlType::CmdUpdateCursor => 0x0300,
            CtrlType::CmdMoveCursor => 0x0301,
            CtrlType::RespOkNoData => 0x1100,
            CtrlType::RespOkDisplayInfo => 0x1101,
            CtrlType::RespOkCapsetInfo => 0x1102,
            CtrlType::RespOkCapset => 0x1103,
            CtrlType::RespOkEdid => 0x1104,
            CtrlType::RespErrUnspec => 0x1200,
            CtrlType::RespErrOutOfMemory => 0x1201,
            CtrlType::RespErrInvalidScanoutId => 0x1202,
            CtrlType::RespErrInvalidResourceId => 0x1203,
            CtrlType::RespErrInvalidContextId => 0x1204,
            CtrlType::RespErrInvalidParameter => 0x1205,
        }
    }

    /// The kind as the device reads and writes it.
    pub fn val(self) -> (r: u32)
        ensures
            r == self.spec_val(),
    {
        match self {
            CtrlType::CmdGetDisplayInfo => 0x0100,
            CtrlType::CmdResourceCreate2d => 0x0101,
            CtrlType::CmdResourceUref => 0x0102,
            CtrlType::CmdSetScanout => 0x0103,
            CtrlType::CmdResourceFlush => 0x0104,
            CtrlType::CmdTransferToHost2d => 0x0105,
            CtrlType::CmdResourceAttachBacking => 0x0106,
            CtrlType::CmdResourceDetachBacking => 0x0107,
            CtrlType::CmdGetCapsetInfo => 0x0108,
            CtrlType::CmdGetCapset => 0x0109,
            CtrlType::CmdGetEdid => 0x010a,
            CtrlType::CmdUpdateCursor => 0x0300,
            CtrlType::CmdMoveCursor => 0x0301,
            CtrlType::RespOkNoData => 0x1100,
            CtrlType::RespOkDisplayInfo => 0x1101,
            CtrlType::RespOkCapsetInfo => 0x1102,
            CtrlType::RespOkCapset => 0x1103,
            CtrlType::RespOkEdid => 0x1104,
            CtrlType::RespErrUnspec => 0x1200,
            CtrlType::RespErrOutOfMemory => 0x1201,
            CtrlType::RespErrInvalidScanoutId => 0x1202,
            CtrlType::RespErrInvalidResourceId => 0x1203,
            CtrlType::RespErrInvalidContextId => 0x1204,
            CtrlType::RespErrInvalidParameter => 0x1205,
        }
    }
}

/// What every command and every answer begins with.
#[derive(Clone, Copy, Debug, PartialEq, Eq, Structural)]
pub struct CtrlHeader {
    pub ctrl_type: CtrlType,
    pub flags: u32,
    pub fence_id: u64,
    pub ctx_id: u32,
    pub padding: u32,
}

/// The format of the pixels of a resource.
#[derive(Clone, Copy, Debug, PartialEq, Eq, Structural)]
pub enum Formats {
    B8G8R8A8Unorm,
    B8G8R8X8Unorm,
    A8R8G8B8Unorm,
    X8R8G8B8Unorm,
    R8G8B8A8Unorm,
    X8B8G8R8Unorm,
    A8B8G8R8Unorm,
    R8G8B8X8Unorm,
}

impl Formats {
    pub open spec fn spec_val(self) -> u32 {
        match self {
            Formats::B8G8R8A8Unorm => 1,
            Formats::B8G8R8X8Unorm => 2,
            Formats::A8R8G8B8Unorm => 3,
            Formats::X8R8G8B8Unorm => 4,
            Formats::R8G8B8A8Unorm => 67,
            Formats::X8B8G8R8Unorm => 68,
            Formats::A8B8G8R8Unorm => 121,
            Formats::R8G8B8X8Unorm => 134,
        }
    }

    /// The format as the device reads it.
    pub fn val(self) -> (r: u32)
        ensures
            r == self.spec_val(),
    {
        match self {
            Formats::B8G8R8A8Unorm => 1,
            Formats::B8G8R8X8Unorm => 2,
            Formats::A8R8G8B8Unorm => 3,
            Formats::X8R8G8B8Unorm => 4,
            Formats::R8G8B8A8Unorm => 67,
            Formats::X8B8G8R8Unorm => 68,
            Formats::A8B8G8R8Unorm => 121,
            Formats::R8G8B8X8Unorm => 134,
        }
    }
}

#[derive(Clone, Copy, Debug, PartialEq, Eq, Structural)]
pub struct ResourceCreate2d {
    pub hdr: CtrlHeader,
    pub resource_id: u32,
    pub format: Formats,
    pub width: u32,
    pub height: u32,
}

#[derive(Clone, Copy, Debug, PartialEq, Eq, Structural)]
pub struct AttachBacking {
    pub hdr: CtrlHeader,
    pub resource_id: u32,
    pub nr_entries: u32,
}

#[derive(Clone, Copy, Debug, PartialEq, Eq, Structural)]
pub struct MemEntry {
    pub addr: u64,
    pub length: u32,
    pub padding: u32,
}

#[derive(Clone, Copy, Debug, PartialEq, Eq, Structural)]
pub struct SetScanout {
    pub hdr: CtrlHeader,
    pub r: Rect,
    pub scanout_id: u32,
    pub resource_id: u32,
}

#[derive(Clone, Copy, Debug, PartialEq, Eq, Structural)]
pub struct TransferToHost2d {
    pub hdr: CtrlHeader,
    pub r: Rect,
    pub offset: u64,
    pub resource_id: u32,
    pub padding: u32,
}

#[derive(Clone, Copy, Debug, PartialEq, Eq, Structural)]
pub struct ResourceFlush {
    pub hdr: CtrlHeader,
    pub r: Rect,
    pub resource_id: u32,
    pub padding: u32,
}

/// Size in bytes of the header of a command, which is also what the device
/// answers most commands with.
pub const HEADER_SIZE: u32 = 24;

pub const CREATE_SIZE: u32 = 40;

pub const ATTACH_SIZE: u32 = 32;

pub const MEM_ENTRY_SIZE: u32 = 16;

pub const SCANOUT_SIZE: u32 = 48;

pub const TRANSFER_SIZE: u32 = 56;

pub const FLUSH_SIZE: u32 = 48;

/// Most bytes that a request takes, with the room for its answer.
pub const REQUEST_ROOM: u64 = 80;

/// The header of a command of the kind `t`.
pub open spec fn header(t: CtrlType) -> CtrlHeader {
    CtrlHeader { ctrl_type: t, flags: 0, fence_id: 0, ctx_id: 0, padding: 0 }
}

/// The ring `r` after a request of `len` bytes at the address `at`, with
/// the room for the answer behind it, has been offered to the device: the
/// descriptor `idx` holds the request and leads to the next one, which holds
/// the room for the answer.
#[verifier::opaque]
pub open spec fn requested(r: Ring, idx: u16, at: u64, len: u32) -> Ring {
    let next = ((idx + 1) % 128) as u16;
    offered(
        with_descriptor(
            with_descriptor(
                r,
                idx as int,
                Descriptor { addr: at, len, flags: VIRTIO_DESC_F_NEXT, next },
            ),
            next as int,
            Descriptor {
                addr: (at + len) as u64,
                len: HEADER_SIZE,
                flags: VIRTIO_DESC_F_WRITE,
                next: 0,
            },
        ),
        idx,
    )
}

/// The ring `r` after the request to attach memory to a resource has been
/// offered to the device: the request at `at`, the entry that names the
/// memory behind it, and the room for the answer behind that, in three
/// descriptors from `idx` on.
#[verifier::opaque]
pub open spec fn backing_requested(r: Ring, idx: u16, at: u64) -> Ring {
    let second = ((idx + 1) % 128) as u16;
    let third = ((idx + 2) % 128) as u16;
    offered(
        with_descriptor(
            with_descriptor(
                with_descriptor(
                    r,
                    idx as int,
                    Descriptor {
                        addr: at,
                        len: ATTACH_SIZE,
                        flags: VIRTIO_DESC_F_NEXT,
                        next: second,
                    },
                ),
                second as int,
                Descriptor {
                    addr: (at + 32) as u64,
                    len: MEM_ENTRY_SIZE,
                    flags: VIRTIO_DESC_F_NEXT,
                    next: third,
                },
            ),
            third as int,
            Descriptor {
                addr: (at + 48) as u64,
                len: HEADER_SIZE,
                flags: VIRTIO_DESC_F_WRITE,
                next: 0,
            },
        ),
        idx,
    )
}

fn request(dev: &mut Device, queue: &mut Queue, at: u64, len: u32)
    requires
        old(dev).idx < 128,
        at + len <= u64::MAX,
    ensures
        *final(dev) == (Device { idx: ring_after(old(dev).idx, 2), ..*old(dev) }),
        final(queue).ring() == requested(old(queue).ring(), old(dev).idx, at, len),
        final(queue).device_side(*old(queue)),
{
    proof {
        reveal(requested);
    }
    let head = dev.idx;
    let second: u16 = (head + 1) % 128;
    let _ = put_descriptor(
        queue,
        head,
        Descriptor { addr: at, len, flags: VIRTIO_DESC_F_NEXT, next: second },
    );
    let third = put_descriptor(
        queue,
        second,
        Descriptor { addr: at + len as u64, len: HEADER_SIZE, flags: VIRTIO_DESC_F_WRITE, next: 0 },
    );
    dev.idx = third;
    offer(queue, head);
}

fn request_backing(dev: &mut Device, queue: &mut Queue, at: u64)
    requires
        old(dev).idx < 128,
        at + 48 <= u64::MAX,
    ensures
        *final(dev) == (Device { idx: ring_after(old(dev).idx, 3), ..*old(dev) }),
        final(queue).ring() == backing_requested(old(queue).ring(), old(dev).idx, at),
        final(queue).device_side(*old(queue)),
{
    proof {
        reveal(backing_requested);
    }
    let head = dev.idx;
    let second: u16 = (head + 1) % 128;
    let third: u16 = (head + 2) % 128;
    let _ = put_descriptor(
        queue,
        head,
        Descriptor { addr: at, len: ATTACH_SIZE, flags: VIRTIO_DESC_F_NEXT, next: second },
    );
    let _ = put_descriptor(
        queue,
        second,
        Descriptor { addr: at + 32, len: MEM_ENTRY_SIZE, flags: VIRTIO_DESC_F_NEXT, next: third },
    );
    let fourth = put_descriptor(
        queue,
        third,
        Descriptor { addr: at + 48, len: HEADER_SIZE, flags: VIRTIO_DESC_F_WRITE, next: 0 },
    );
    dev.idx = fourth;
    offer(queue, head);
}

/// The two requests that show a part of the frame buffer on the screen.
#[derive(Clone, Copy, Debug, PartialEq, Eq, Structural)]
pub struct TransferRequests {
    pub transfer: TransferToHost2d,
    pub flush: ResourceFlush,
}

/// The requests of `transfer` for the rectangle `r`.
pub open spec fn transfer_requests(r: Rect) -> TransferRequests {
    TransferRequests {
        transfer: TransferToHost2d {
            hdr: header(CtrlType::CmdTransferToHost2d),
            r,
            offset: 0,
            resource_id: 1,
            padding: 0,
        },
        flush: ResourceFlush {
            hdr: header(CtrlType::CmdResourceFlush),
            r,
            resource_id: 1,
            padding: 0,
        },
    }
}

/// Asks the display to take the rectangle of `width` by `height` pixels at
/// (`x`, `y`) from the frame buffer and to show it. The two requests
/// stand at `first` and `second`, each with the room for its answer behind
/// it; the result holds what has to be stored there before the device is
/// told of the queue.
pub fn transfer(
    dev: &mut Device,
    queue: &mut Queue,
    first: u64,
    second: u64,
    x: u32,
    y: u32,
    width: u32,
    height: u32,
) -> (r: TransferRequests)
    requires
        old(dev).idx < 128,
        first <= u64::MAX - REQUEST_ROOM,
        second <= u64::MAX - REQUEST_ROOM,
    ensures
        r == transfer_requests(Rect { x, y, width, height }),
        *final(dev) == (Device { idx: ring_after(old(dev).idx, 4), ..*old(dev) }),
        final(queue).ring() == requested(
            requested(old(queue).ring(), old(dev).idx, first, TRANSFER_SIZE),
            ring_after(old(dev).idx, 2),
            second,
            FLUSH_SIZE,
        ),
        final(queue).device_side(*old(queue)),
{
    let rect = Rect::new(x, y, width, height);
    request(dev, queue, first, TRANSFER_SIZE);
    request(dev, queue, second, FLUSH_SIZE);
    TransferRequests {
        transfer: TransferToHost2d {
            hdr: command(CtrlType::CmdTransferToHost2d),
            r: rect,
            offset: 0,
            resource_id: 1,
            padding: 0,
        },
        flush: ResourceFlush {
            hdr: command(CtrlType::CmdResourceFlush),
            r: rect,
            resource_id: 1,
            padding: 0,
        },
    }
}

/// See `header`.
fn command(t: CtrlType) -> (h: CtrlHeader)
    ensures
        h == header(t),
{
    CtrlHeader { ctrl_type: t, flags: 0, fence_id: 0, ctx_id: 0, padding: 0 }
}

/// The five requests that bring a display up.
#[derive(Clone, Copy, Debug, PartialEq, Eq, Structural)]
pub struct InitRequests {
    pub create: ResourceCreate2d,
    pub attach: AttachBacking,
    pub backing: MemEntry,
    pub scanout: SetScanout,
    pub transfer: TransferToHost2d,
    pub flush: ResourceFlush,
}

/// The requests of `init` for the display `dev`: a resource of the size of
/// the screen is made, the frame buffer is attached to it, the resource is
/// put on the screen, and the whole of it is taken from the frame buffer
/// and shown.
pub open spec fn init_requests(dev: Device) -> InitRequests {
    let whole = Rect { x: 0, y: 0, width: dev.width, height: dev.height };
    InitRequests {
        create: ResourceCreate2d {
            hdr: header(CtrlType::CmdResourceCreate2d),
            resource_id: 1,
            format: Formats::R8G8B8A8Unorm,
            width: dev.width,
            height: dev.height,
        },
        attach: AttachBacking {
            hdr: header(CtrlType::CmdResourceAttachBacking),
            resource_id: 1,
            nr_entries: 1,
        },
        backing: MemEntry {
            addr: dev.framebuffer,
            length: (dev.width * dev.height * 4) as u32,
            padding: 0,
        },
        scanout: SetScanout {
            hdr: header(CtrlType::CmdSetScanout),
            r: whole,
            resource_id: 1,
            scanout_id: 0,
        },
        transfer: transfer_requests(whole).transfer,
        flush: transfer_requests(whole).flush,
    }
}

/// The ring `r` after the five requests of `init` at the addresses `at`
/// have been offered from the descriptor `idx` on.
pub open spec fn init_requested(r: Ring, idx: u16, at: Seq<u64>) -> Ring {
    let created = requested(r, idx, at[0], CREATE_SIZE);
    let attached = backing_requested(created, ring_after(idx, 2), at[1]);
    let scanned = requested(attached, ring_after(idx, 5), at[2], SCANOUT_SIZE);
    let transferred = requested(scanned, ring_after(idx, 7), at[3], TRANSFER_SIZE);
    requested(transferred, ring_after(idx, 9), at[4], FLUSH_SIZE)
}

/// Brings the display up: the screen of 640 by 480 pixels is painted in a
/// dark grey, and the five requests of `init_requests` are offered to the
/// device. The requests stand at the addresses `at`, each with the room
/// for its answer behind it; the result holds what has to be stored there
/// before the device is told of the queue.
pub fn init(dev: &mut Device, queue: &mut Queue, alloc: &mut PageAllocator, at: &[u64; 5]) -> (r:
    InitRequests)
    requires
        old(dev).idx < 128,
        old(dev).width * old(dev).height * 4 <= u32::MAX,
        old(alloc).wf(),
        forall|k: int| 0 <= k < 5 ==> #[trigger] at@[k] <= u64::MAX - REQUEST_ROOM,
    ensures
        r == init_requests(*old(dev)),
        *final(dev) == (Device { idx: ring_after(old(dev).idx, 11), ..*old(dev) }),
        final(queue).ring() == init_requested(old(queue).ring(), old(dev).idx, at@),
        final(queue).device_side(*old(queue)),
        final(alloc).wf(),
        final(alloc).start() == old(alloc).start(),
        final(alloc).pages() == old(alloc).pages(),
        final(alloc).memory() == filled(
            old(alloc).memory(),
            old(dev).framebuffer - old(alloc).start(),
            old(dev).width as int,
            Rect { x: 0, y: 0, width: 640, height: 480 },
            Pixel { r: 2, g: 2, b: 2, a: 255 },
        ),
{
    fill_rect(dev, alloc, Rect::new(0, 0, 640, 480), Pixel::new(2, 2, 2, 255));
    let whole = Rect::new(0, 0, dev.width, dev.height);
    let pixels: u32 = dev.width * dev.height;
    let length: u32 = pixels * 4;
    let r = InitRequests {
        create: ResourceCreate2d {
            hdr: command(CtrlType::CmdResourceCreate2d),
            resource_id: 1,
            format: Formats::R8G8B8A8Unorm,
            width: dev.width,
            height: dev.height,
        },
        attach: AttachBacking {
            hdr: command(CtrlType::CmdResourceAttachBacking),
            resource_id: 1,
            nr_entries: 1,
        },
        backing: MemEntry { addr: dev.framebuffer, length, padding: 0 },
        scanout: SetScanout {
            hdr: command(CtrlType::CmdSetScanout),
            r: whole,
            resource_id: 1,
            scanout_id: 0,
        },
        transfer: TransferToHost2d {
            hdr: command(CtrlType::CmdTransferToHost2d),
            r: whole,
            offset: 0,
            resource_id: 1,
            padding: 0,
        },
        flush: ResourceFlush {
            hdr: command(CtrlType::CmdResourceFlush),
            r: whole,
            resource_id: 1,
            padding: 0,
        },
    };
    request(dev, queue, at[0], CREATE_SIZE);
    request_backing(dev, queue, at[1]);
    request(dev, queue, at[2], SCANOUT_SIZE);
    request(dev, queue, at[3], TRANSFER_SIZE);
    request(dev, queue, at[4], FLUSH_SIZE);
    r
}

/// Address of the request that the device has finished with and named in
/// entry `k` of the used ring, counted as the device counts; 0 where the
/// entry names no descriptor.
pub open spec fn finished_request(queue: Queue, k: int) -> u64 {
    let id = queue.used.ring@[k % 128].id;
    if id < 128 {
        queue.desc@[id as int].addr
    } else {
        0
    }
}

/// Addresses of the `n` requests that the device has finished with since
/// entry `from` of the used ring.
pub open spec fn finished_requests(queue: Queue, from: int, n: int) -> Seq<u64> {
    Seq::new(n as nat, |k: int| finished_request(queue, from + k))
}

/// Looks at what the device has finished with since the last look, and
/// gives the memory of each of these requests back to the heap.
pub fn pending(dev: &mut Device, queue: &Queue, heap: &mut Kmem)
    requires
        old(heap).wf(),
    ensures
        *final(dev) == (Device { ack_used_idx: queue.used.idx, ..*old(dev) }),
        final(heap).wf(),
        final(heap).head() == old(heap).head(),
        final(heap).num_pages() == old(heap).num_pages(),
        final(heap).blocks() == freed_all(
            old(heap).head(),
            old(heap).blocks(),
            finished_requests(
                *queue,
                old(dev).ack_used_idx as int,
                ring_distance(old(dev).ack_used_idx, queue.used.idx),
            ),
        ),
{
    let ghost from = dev.ack_used_idx as int;
    let ghost total = ring_distance(dev.ack_used_idx, queue.used.idx);
    let mut done: u32 = 0;
    proof {
        assert(finished_requests(*queue, from, 0) =~= Seq::<u64>::empty());
    }
    while dev.ack_used_idx != queue.used.idx
        invariant
            heap.wf(),
            heap.head() == old(heap).head(),
            heap.num_pages() == old(heap).num_pages(),
            0 <= done <= total <= 0xffff,
            from == old(dev).ack_used_idx,
            total == ring_distance(old(dev).ack_used_idx, queue.used.idx),
            dev.ack_used_idx as int == (from + done) % 0x1_0000,
            ring_distance(dev.ack_used_idx, queue.used.idx) == total - done,
            *dev == (Device { ack_used_idx: dev.ack_used_idx, ..*old(dev) }),
            heap.blocks() == freed_all(
                old(heap).head(),
                old(heap).blocks(),
                finished_requests(*queue, from, done as int),
            ),
        decreases total - done,
    {
        let slot: usize = (dev.ack_used_idx % 128) as usize;
        let id: u32 = queue.used.ring[slot].id;
        let addr: u64 = if id < 128 {
            queue.desc[id as usize].addr
        } else {
            0
        };
        proof {
            assert((from + done) % 128 == dev.ack_used_idx % 128) by {
                assert(((from + done) % 0x1_0000) % 128 == (from + done) % 128) by (nonlinear_arith)
                    requires
                        from + done >= 0,
                ;
            }
            assert(addr == finished_request(*queue, from + done));
            let before = finished_requests(*queue, from, done as int);
            let after = finished_requests(*queue, from, done + 1);
            assert(after.drop_last() =~= before);
            assert(after.last() == addr);
        }
        kfree(heap, addr);
        dev.ack_used_idx = dev.ack_used_idx.wrapping_add(1);
        done = done + 1;
    }
}

/// Number of pages that are reserved for the frame buffer of a display: the
/// pixels of a screen of 640 by 480, and two pages more.
pub const FRAMEBUFFER_PAGES: usize = 302;

/// The last part of the set-up of the display whose registers are at
/// `ptr`: the memory for its queue and its frame buffer is reserved, and
/// the result holds what the driver keeps of the display and what is left
/// to write to its registers. `None`, with nothing changed, where `alloc`
/// has no room.
pub fn setup_gpu_device(ptr: u64, alloc: &mut PageAllocator) -> (r: Option<
    (Device, Vec<RegisterOp>),
>)
    requires
        old(alloc).wf(),
    ensures
        final(alloc).wf(),
        final(alloc).start() == old(alloc).start(),
        final(alloc).num_pages() == old(alloc).num_pages(),
        r is Some <==> requests_fit(old(alloc).pages(), seq![2usize, 302usize]),
        r is None ==> final(alloc).pages() == old(alloc).pages() && final(alloc).memory() == old(
            alloc,
        ).memory(),
        r is Some ==> {
            let sizes = seq![2usize, 302usize];
            let (dev, ops) = r->0;
            &&& dev == (Device {
                queue: (old(alloc).start() + request_index(old(alloc).pages(), sizes, 0)
                    * 4096) as u64,
                dev: ptr,
                idx: 0,
                ack_used_idx: 0,
                framebuffer: (old(alloc).start() + request_index(old(alloc).pages(), sizes, 1)
                    * 4096) as u64,
                width: 640,
                height: 480,
            })
            &&& ops@ == queues_placed(seq![dev.queue], 0)
            &&& final(alloc).pages() == after_requests(old(alloc).pages(), sizes)
            &&& final(alloc).memory() == cleared(old(alloc).pages(), old(alloc).memory(), sizes)
        },
{
    let mut more: Vec<usize> = Vec::new();
    more.push(FRAMEBUFFER_PAGES);
    proof {
        assert(crate::virtio::queue_sizes(1) + more@ =~= seq![2usize, 302usize]);
    }
    match reserve_queues(alloc, 1, &more) {
        Some(addrs) => {
            let mut queues: Vec<u64> = Vec::new();
            queues.push(addrs[0]);
            proof {
                assert(queues@ =~= seq![addrs@[0]]);
            }
            let ops = finish_setup(&queues);
            Some(
                (
                    Device {
                        queue: addrs[0],
                        dev: ptr,
                        idx: 0,
                        ack_used_idx: 0,
                        framebuffer: addrs[1],
                        width: 640,
                        height: 480,
                    },
                    ops,
                ),
            )
        },
        None => None,
    }
}

} // verus!
