//! What a file descriptor can stand for.

use crate::vfs::Entry;
use vstd::prelude::*;

verus! {

#[derive(Clone, Copy, Debug)]
pub enum DescriptorType {
    File(Entry),
    Device,
    Framebuffer,
    ButtonEvents,
    AbsoluteEvents,
    ConsoleIn,
    ConsoleOut,
    Network,
    Unknown,
}

} // verus!
