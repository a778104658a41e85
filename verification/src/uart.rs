//! The serial port, as far as the kernel core names it.

use vstd::prelude::*;

verus! {

/// Address of the registers of the serial port of the machine.
pub const UART_BASE: u64 = 0x1000_0000;

#[derive(Clone, Copy, Debug, PartialEq, Eq, Structural)]
pub struct Uart {
    pub base_address: u64,
}

impl Uart {
    pub fn new(base_address: u64) -> (u: Uart)
        ensures
            u.base_address == base_address,
    {
        Uart { base_address }
    }
}

} // verus!
