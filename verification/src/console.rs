//! Buffers of the serial console.
//!
//! Output is queued until the console takes it; input is queued until a
//! process reads it. A process that finds no input waits in the queue of the
//! console and is made runnable when a line has come in.

use crate::process::{has_pid, pid_index, set_running, Process, ProcessState, ProcessTable};
use std::collections::VecDeque;
use vstd::prelude::*;

verus! {

/// Number of bytes of output that are kept; what comes beyond is dropped.
pub const DEFAULT_OUT_BUFFER_SIZE: usize = 10_000;

/// Number of bytes of input that are kept; what comes beyond is dropped.
pub const DEFAULT_IN_BUFFER_SIZE: usize = 1_000;

pub struct Console {
    pub in_buffer: VecDeque<u8>,
    pub out_buffer: VecDeque<u8>,
    pub queue: VecDeque<u16>,
}

/// The processes `procs` with the process `pid`, if there is one, running.
pub open spec fn with_running(procs: Seq<Process>, pid: u16) -> Seq<Process> {
    if has_pid(procs, pid) {
        let i = pid_index(procs, pid);
        procs.update(i, Process { state: ProcessState::Running, ..procs[i] })
    } else {
        procs
    }
}

/// The processes `procs` after the processes `pids` have been made running,
/// one after the other.
pub open spec fn all_running(procs: Seq<Process>, pids: Seq<u16>) -> Seq<Process>
    decreases pids.len(),
{
    if pids.len() == 0 {
        procs
    } else {
        all_running(with_running(procs, pids[0]), pids.skip(1))
    }
}

/// The byte ends a line of input.
pub open spec fn ends_line(c: u8) -> bool {
    c == 10 || c == 11
}

/// A console with nothing queued.
pub fn init() -> (c: Console)
    ensures
        c.in_buffer@ == Seq::<u8>::empty(),
        c.out_buffer@ == Seq::<u8>::empty(),
        c.queue@ == Seq::<u16>::empty(),
{
    Console { in_buffer: VecDeque::new(), out_buffer: VecDeque::new(), queue: VecDeque::new() }
}

/// Queues the byte `c` for output; a byte that finds the queue full is
/// dropped.
pub fn push_stdout(console: &mut Console, c: u8)
    ensures
        final(console).out_buffer@ == if old(console).out_buffer@.len() < DEFAULT_OUT_BUFFER_SIZE {
            old(console).out_buffer@.push(c)
        } else {
            old(console).out_buffer@
        },
        final(console).in_buffer@ == old(console).in_buffer@,
        final(console).queue@ == old(console).queue@,
{
    if console.out_buffer.len() < DEFAULT_OUT_BUFFER_SIZE {
        console.out_buffer.push_back(c);
    }
}

/// Takes the oldest byte of output; 0 if there is none.
pub fn pop_stdout(console: &mut Console) -> (c: u8)
    ensures
        old(console).out_buffer@.len() == 0 ==> c == 0,
        old(console).out_buffer@.len() == 0 ==> final(console).out_buffer@ == old(
            console,
        ).out_buffer@,
        old(console).out_buffer@.len() > 0 ==> c == old(console).out_buffer@[0],
        old(console).out_buffer@.len() > 0 ==> final(console).out_buffer@ == old(
            console,
        ).out_buffer@.skip(1),
        final(console).in_buffer@ == old(console).in_buffer@,
        final(console).queue@ == old(console).queue@,
{
    match console.out_buffer.pop_front() {
        Some(c) => {
            proof {
                assert(console.out_buffer@ =~= old(console).out_buffer@.skip(1));
            }
            c
        },
        None => 0,
    }
}

/// Queues the byte `c` of input; a byte that finds the queue full is
/// dropped. A byte that ends a line makes every process runnable that waits
/// in the queue of the console, and empties that queue.
pub fn push_stdin(console: &mut Console, table: &mut ProcessTable, c: u8)
    requires
        old(table).wf(),
    ensures
        final(table).wf(),
        final(table).same_frame(*old(table)),
        final(console).out_buffer@ == old(console).out_buffer@,
        old(console).in_buffer@.len() >= DEFAULT_IN_BUFFER_SIZE ==> {
            &&& final(console).in_buffer@ == old(console).in_buffer@
            &&& final(console).queue@ == old(console).queue@
            &&& final(table).procs() == old(table).procs()
        },
        old(console).in_buffer@.len() < DEFAULT_IN_BUFFER_SIZE ==> {
            &&& final(console).in_buffer@ == old(console).in_buffer@.push(c)
            &&& if ends_line(c) {
                final(console).queue@ == Seq::<u16>::empty() && final(table).procs()
                    == all_running(old(table).procs(), old(console).queue@)
            } else {
                final(console).queue@ == old(console).queue@ && final(table).procs() == old(table).procs()
            }
        },
{
    if console.in_buffer.len() < DEFAULT_IN_BUFFER_SIZE {
        console.in_buffer.push_back(c);
        if c == 10 || c == 11 {
            loop
                invariant
                    table.wf(),
                    table.same_frame(*old(table)),
                    console.in_buffer@ == old(console).in_buffer@.push(c),
                    console.out_buffer@ == old(console).out_buffer@,
                    all_running(table.procs(), console.queue@) == all_running(
                        old(table).procs(),
                        old(console).queue@,
                    ),
                ensures
                    console.queue@ == Seq::<u16>::empty(),
                    table.procs() == all_running(old(table).procs(), old(console).queue@),
                decreases console.queue@.len(),
            {
                let ghost before = console.queue@;
                match console.queue.pop_front() {
                    Some(pid) => {
                        proof {
                            assert(console.queue@ =~= before.skip(1));
                        }
                        set_running(table, pid);
                    },
                    None => {
                        proof {
                            assert(console.queue@ =~= Seq::<u16>::empty());
                        }
                        break ;
                    },
                }
            }
        }
    }
}

/// Takes the oldest byte of input; 0 if there is none.
pub fn pop_stdin(console: &mut Console) -> (c: u8)
    ensures
        old(console).in_buffer@.len() == 0 ==> c == 0,
        old(console).in_buffer@.len() == 0 ==> final(console).in_buffer@ == old(
            console,
        ).in_buffer@,
        old(console).in_buffer@.len() > 0 ==> c == old(console).in_buffer@[0],
        old(console).in_buffer@.len() > 0 ==> final(console).in_buffer@ == old(
            console,
        ).in_buffer@.skip(1),
        final(console).out_buffer@ == old(console).out_buffer@,
        final(console).queue@ == old(console).queue@,
{
    match console.in_buffer.pop_front() {
        Some(c) => {
            proof {
                assert(console.in_buffer@ =~= old(console).in_buffer@.skip(1));
            }
            c
        },
        None => 0,
    }
}

/// Puts the process `pid` into the queue of the processes that wait for
/// input.
pub fn push_queue(console: &mut Console, pid: u16)
    ensures
        final(console).queue@ == old(console).queue@.push(pid),
        final(console).in_buffer@ == old(console).in_buffer@,
        final(console).out_buffer@ == old(console).out_buffer@,
{
    console.queue.push_back(pid);
}

} // verus!
