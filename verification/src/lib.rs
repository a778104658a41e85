//! The core of a small preemptive-multitasking kernel for a 64-bit RISC
//! machine: the physical page allocator, the three-level page tables, the
//! process table with its round-robin scheduler, and the trap dispatcher that
//! turns exceptions, timer ticks and system calls into process state
//! transitions.
//!
//! The kernel-wide state is held in explicit context values that the caller
//! creates once and hands to every operation: the page allocator with the
//! memory it manages, the kernel heap, and the process table. Whatever
//! touches the hardware (control registers, device windows, the context
//! switch itself) is left to the caller: the functions here decide, and say
//! in their result what has to be done.
//!
//! Around the core stand the parts that it works with: the queues and the
//! set-up of the devices on the bus, the block device, the display and
//! the input devices, the read-only file system with the name space over
//! it, the loader of programs, and the game that is the first of them.
//! A disk is given as its bytes; the registers of a device are written and
//! read by the caller, step by step as the drivers say.
//!
//! Addresses and machine words are `u64`; counts and positions in the
//! kernel's own tables are `usize`.

pub mod block;
pub mod buffer;
pub mod console;
pub mod cpu;
pub mod elf;
pub mod fd;
pub mod fs;
pub mod gpu;
pub mod input;
pub mod kmem;
pub mod lock;
pub mod mmu;
pub mod page;
pub mod plic;
pub mod pong;
pub mod process;
pub mod rng;
pub mod sched;
pub mod syscall;
pub mod trap;
pub mod uart;
pub mod vfs;
pub mod virtio;
