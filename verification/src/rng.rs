//! The entropy device, as far as the kernel core names it.

use crate::kmem::{block_fits, block_need, blocks_freed, carve, coalesced, fit_index, kfree, kmalloc, Kmem};
use crate::page::{after_requests, cleared, request_index, requests_fit, PageAllocator};
use crate::virtio::{finish_setup, queues_placed, reserve_queues, RegisterOp};
use vstd::prelude::*;

verus! {

/// What the driver keeps of an entropy device.
#[derive(Clone, Copy, Debug, PartialEq, Eq, Structural)]
pub struct EntropyDevice {
    pub queue: u64,
    pub dev: u64,
    pub idx: u16,
    pub ack_used_idx: u16,
}

impl EntropyDevice {
    /// A device that is not set up.
    pub fn new() -> (d: EntropyDevice)
        ensures
            d == (EntropyDevice { queue: 0, dev: 0, idx: 0, ack_used_idx: 0 }),
    {
        EntropyDevice { queue: 0, dev: 0, idx: 0, ack_used_idx: 0 }
    }
}

/// The last part of the set-up of the entropy device whose registers are
/// at `ptr`: the memory for its queue is reserved, and the result holds
/// what the driver keeps of the device and what is left to write to its
/// registers. `None`, with nothing changed, where `alloc` has no room.
pub fn setup_entropy_device(ptr: u64, alloc: &mut PageAllocator) -> (r: Option<
    (EntropyDevice, Vec<RegisterOp>),
>)
    requires
        old(alloc).wf(),
    ensures
        final(alloc).wf(),
        final(alloc).start() == old(alloc).start(),
        final(alloc).num_pages() == old(alloc).num_pages(),
        r is Some <==> requests_fit(old(alloc).pages(), seq![2usize]),
        r is None ==> final(alloc).pages() == old(alloc).pages() && final(alloc).memory() == old(
            alloc,
        ).memory(),
        r is Some ==> {
            let sizes = seq![2usize];
            let (dev, ops) = r->0;
            &&& dev == (EntropyDevice {
                queue: (old(alloc).start() + request_index(old(alloc).pages(), sizes, 0)
                    * 4096) as u64,
                dev: ptr,
                idx: 0,
                ack_used_idx: 0,
            })
            &&& ops@ == queues_placed(seq![dev.queue], 0)
            &&& final(alloc).pages() == after_requests(old(alloc).pages(), sizes)
            &&& final(alloc).memory() == cleared(old(alloc).pages(), old(alloc).memory(), sizes)
        },
{
    let more: Vec<usize> = Vec::new();
    proof {
        assert(crate::virtio::queue_sizes(1) + more@ =~= seq![2usize]);
    }
    match reserve_queues(alloc, 1, &more) {
        Some(addrs) => {
            let mut queues: Vec<u64> = Vec::new();
            queues.push(addrs[0]);
            proof {
                assert(queues@ =~= seq![addrs@[0]]);
            }
            let ops = finish_setup(&queues);
            Some((EntropyDevice { queue: addrs[0], dev: ptr, idx: 0, ack_used_idx: 0 }, ops))
        },
        None => None,
    }
}

/// There is a device among `devices`.
pub open spec fn has_device(devices: Seq<Option<EntropyDevice>>) -> bool {
    exists|i: int| 0 <= i < devices.len() && (#[trigger] devices[i]) is Some
}

/// A random number. The number is not yet taken from a device: where there
/// is one, eight bytes are taken from the heap for its answer and given
/// back, and the result is the greatest number in either case.
pub fn get_random(devices: &[Option<EntropyDevice>; 8], heap: &mut Kmem) -> (r: u64)
    requires
        old(heap).wf(),
    ensures
        r == u64::MAX,
        final(heap).wf(),
        final(heap).head() == old(heap).head(),
        final(heap).num_pages() == old(heap).num_pages(),
        final(heap).blocks() == if has_device(devices@) && exists|i: int|
            block_fits(old(heap).blocks(), block_need(8), i) {
            let i = fit_index(old(heap).blocks(), block_need(8));
            coalesced(
                blocks_freed(
                    old(heap).head(),
                    carve(old(heap).blocks(), block_need(8), i),
                    old(heap).data_addr(i),
                ),
            )
        } else {
            old(heap).blocks()
        },
{
    let mut k: usize = 0;
    while k < 8
        invariant
            k <= 8,
            *heap == *old(heap),
            heap.wf(),
            forall|i: int| 0 <= i < k ==> (#[trigger] devices@[i]) is None,
        decreases 8 - k,
    {
        if devices[k].is_some() {
            let ptr = kmalloc(heap, 8);
            kfree(heap, ptr);
            return 0u64.wrapping_sub(1);
        }
        k = k + 1;
    }
    0u64.wrapping_sub(1)
}

} // verus!
