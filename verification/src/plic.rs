//! What the kernel core uses of the interrupt controller: which source an
//! interrupt that was claimed belongs to. Claiming and completing are done
//! at the registers of the controller, outside the core.

use vstd::prelude::*;

verus! {

/// Number of the interrupt of the serial console.
pub const UART_INTERRUPT: u32 = 10;

/// The source of an interrupt that was claimed.
#[derive(Clone, Copy, Debug, PartialEq, Eq, Structural)]
pub enum InterruptSource {
    /// One of the devices of the memory-mapped bus, by its interrupt number.
    Virtio(u32),
    /// The serial console.
    Uart,
    /// A source that the kernel does not know.
    Unknown(u32),
}

/// The source of the interrupt that the controller handed out as `claim`;
/// a claim of 0 says that no interrupt was pending.
pub open spec fn spec_next(claim: u32) -> Option<u32> {
    if claim == 0 {
        None
    } else {
        Some(claim)
    }
}

/// The interrupt that a read of the claim register handed out, if any.
pub fn next(claim: u32) -> (r: Option<u32>)
    ensures
        r == spec_next(claim),
{
    if claim == 0 {
        None
    } else {
        Some(claim)
    }
}

/// The threshold as the controller takes it: its low three bits.
pub fn set_threshold(tsh: u8) -> (r: u32)
    ensures
        r == tsh % 8,
{
    proof {
        assert(tsh & 7 == tsh % 8) by (bit_vector);
    }
    (tsh & 7) as u32
}

/// Whether the interrupt `id` is among the pending ones `pending`, which
/// holds one bit for each of the first 32 interrupts.
pub fn is_pending(pending: u32, id: u32) -> (r: bool)
    requires
        id < 32,
    ensures
        r == (pending & (1u32 << id) != 0),
{
    let actual_id: u32 = 1u32 << id;
    pending & actual_id != 0
}

/// The enable bits `enabled` with the interrupt `id` enabled as well.
pub fn enable(enabled: u32, id: u32) -> (r: u32)
    requires
        id < 32,
    ensures
        r == enabled | (1u32 << id),
{
    enabled | (1u32 << id)
}

/// What `handle_interrupt` does with a claim: nothing for no claim, else the
/// source to serve before the claim is completed.
pub open spec fn spec_route(claim: u32) -> Option<InterruptSource> {
    if claim == 0 {
        None
    } else if 1 <= claim <= 8 {
        Some(InterruptSource::Virtio(claim))
    } else if claim == UART_INTERRUPT {
        Some(InterruptSource::Uart)
    } else {
        Some(InterruptSource::Unknown(claim))
    }
}

/// Finds the source of the interrupt that was claimed. The caller serves
/// the source and then completes the claim; without a claim there is
/// nothing to serve and nothing to complete.
pub fn handle_interrupt(claim: u32) -> (r: Option<InterruptSource>)
    ensures
        r == spec_route(claim),
{
    match next(claim) {
        Some(interrupt) => {
            if interrupt >= 1 && interrupt <= 8 {
                Some(InterruptSource::Virtio(interrupt))
            } else if interrupt == UART_INTERRUPT {
                Some(InterruptSource::Uart)
            } else {
                Some(InterruptSource::Unknown(interrupt))
            }
        },
        None => None,
    }
}

} // verus!
