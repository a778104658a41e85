//! Round-robin scheduler.
//!
//! The scheduler is called from interrupt context. It never waits for the
//! table: when the lock is held it reports that nothing has changed, and the
//! caller goes on with what was running. Otherwise it turns the table until
//! a process that may run stands first, by one full turn at most.

use crate::process::{has_pid, pid_index, Process, ProcessState, ProcessTable};
use vstd::prelude::*;

verus! {

/// What `schedule` returns when it has chosen no frame.
pub const NO_CHANGE: u64 = 0;

/// The process may run at the time `now`: it is running, or it sleeps and
/// its wake time has come.
pub open spec fn runnable(p: Process, now: u64) -> bool {
    p.state == ProcessState::Running || (p.state == ProcessState::Sleeping && p.sleep_until
        <= now)
}

/// The table turned by `k` positions: the process at position `k` stands
/// first, and the first `k` processes have gone to the end.
pub open spec fn rotated(procs: Seq<Process>, k: int) -> Seq<Process> {
    procs.skip(k) + procs.take(k)
}

/// The least number of positions from `k` up to the length of the table by
/// which the table can be turned so that a process that may run stands
/// first; 0 if there is none.
pub open spec fn turns_from(procs: Seq<Process>, now: u64, k: int) -> int
    decreases procs.len() - k + 1,
{
    if k < 1 || k > procs.len() {
        0
    } else if runnable(rotated(procs, k)[0], now) {
        k
    } else {
        turns_from(procs, now, k + 1)
    }
}

/// By how many positions `schedule` turns the table until a process that
/// may run stands first; 0 if no process may run.
pub open spec fn turns(procs: Seq<Process>, now: u64) -> int {
    turns_from(procs, now, 1)
}

/// The processes after a call of `schedule` that found the lock free: the
/// table is turned until a process that may run stands first, and that
/// process is running; a table without such a process is left as it is.
pub open spec fn scheduled(procs: Seq<Process>, now: u64) -> Seq<Process> {
    let k = turns(procs, now);
    if k == 0 {
        procs
    } else {
        rotated(procs, k).update(
            0,
            Process { state: ProcessState::Running, ..rotated(procs, k)[0] },
        )
    }
}

/// The frame that `schedule` returns when it found the lock free: that of
/// the process that stands first afterwards, or `NO_CHANGE` where no process
/// may run.
pub open spec fn chosen_frame(procs: Seq<Process>, now: u64) -> u64 {
    let k = turns(procs, now);
    if k == 0 {
        NO_CHANGE
    } else {
        rotated(procs, k)[0].frame_addr
    }
}

/// Turning a turned table by one more position.
pub proof fn lemma_rotated_step(procs: Seq<Process>, k: int)
    requires
        0 <= k < procs.len(),
    ensures
        rotated(procs, k).skip(1).push(rotated(procs, k)[0]) == rotated(procs, k + 1),
        rotated(procs, k).len() == procs.len(),
        rotated(procs, k)[0] == procs[k],
        rotated(procs, 0) == procs,
        rotated(procs, procs.len() as int) == procs,
{
    assert(rotated(procs, k).skip(1).push(rotated(procs, k)[0]) =~= rotated(procs, k + 1));
    assert(rotated(procs, 0) =~= procs);
    assert(rotated(procs, procs.len() as int) =~= procs);
}

/// A turned table holds the same processes: the process at position `i` of
/// the turned table stood at position `i + k`, counted round the table.
pub proof fn lemma_rotated_index(procs: Seq<Process>, k: int, i: int)
    requires
        0 <= k <= procs.len(),
        0 <= i < procs.len(),
    ensures
        rotated(procs, k).len() == procs.len(),
        rotated(procs, k)[i] == procs[if i + k < procs.len() {
            i + k
        } else {
            i + k - procs.len()
        }],
{
}

/// Chooses the process that runs next. Without the lock of the table the
/// result is `NO_CHANGE` and the table stays as it is. With it, the table is
/// turned until a process that may run at the time `now` stands first; that
/// process is made running and its frame is the result. Where no process may
/// run, the table stays as it is and the result is `NO_CHANGE`.
pub fn schedule(table: &mut ProcessTable, now: u64) -> (frame: u64)
    requires
        old(table).wf(),
    ensures
        final(table).wf(),
        final(table).same_frame(*old(table)),
        old(table).locked() ==> frame == NO_CHANGE && final(table).procs() == old(table).procs(),
        !old(table).locked() ==> frame == chosen_frame(old(table).procs(), now),
        !old(table).locked() ==> final(table).procs() == scheduled(old(table).procs(), now),
{
    if !table.try_lock() {
        return NO_CHANGE;
    }
    let n = table.len();
    let mut frame: u64 = NO_CHANGE;
    let mut k: usize = 0;
    let mut found = false;
    proof {
        lemma_rotated_step_zero(old(table).procs());
    }
    while k < n && !found
        invariant
            k <= n,
            n == old(table).procs().len(),
            old(table).wf(),
            table.locked(),
            table.next_pid() == old(table).next_pid(),
            table.exit_routine() == old(table).exit_routine(),
            !found ==> table.procs() == rotated(old(table).procs(), k as int),
            !found ==> frame == NO_CHANGE,
            !found ==> turns(old(table).procs(), now) == turns_from(
                old(table).procs(),
                now,
                k + 1,
            ),
            found ==> frame == chosen_frame(old(table).procs(), now) && table.procs() == scheduled(
                old(table).procs(),
                now,
            ) && turns(old(table).procs(), now) == k,
            found ==> k >= 1,
        decreases n - k,
    {
        proof {
            lemma_rotated_step(old(table).procs(), k as int);
        }
        table.rotate();
        k = k + 1;
        let p = table.get(0);
        let picked = match p.state {
            ProcessState::Running => true,
            ProcessState::Sleeping => p.sleep_until <= now,
            _ => false,
        };
        if picked {
            frame = p.frame_addr;
            table.promote();
            found = true;
        }
    }
    proof {
        let procs = old(table).procs();
        let k0 = turns(procs, now);
        if k0 != 0 {
            lemma_turns_bound(procs, now, 1);
            let r = rotated(procs, k0);
            assert forall|i: int| 0 <= i < r.len() implies (#[trigger] table.procs()[i]).wf()
                && table.procs()[i].pid == r[i].pid by {
                lemma_rotated_index(procs, k0, i);
            }
            assert forall|i: int, j: int| 0 <= i < j < r.len() implies (
            #[trigger] table.procs()[i]).pid != (#[trigger] table.procs()[j]).pid by {
                lemma_rotated_index(procs, k0, i);
                lemma_rotated_index(procs, k0, j);
            }
            assert forall|i: int| 0 <= i < r.len() implies 1 <= (#[trigger] table.procs()[i]).pid
                < table.next_pid() by {
                lemma_rotated_index(procs, k0, i);
            }
        }
    }
    table.unlock();
    frame
}

/// A table that is not turned is the table.
pub proof fn lemma_rotated_step_zero(procs: Seq<Process>)
    ensures
        rotated(procs, 0) == procs,
        rotated(procs, procs.len() as int) == procs,
{
    assert(rotated(procs, 0) =~= procs);
    assert(rotated(procs, procs.len() as int) =~= procs);
}

/// The number of turns is 0 or lies between the start of the search and the
/// length of the table, and the process that then stands first may run.
pub proof fn lemma_turns_bound(procs: Seq<Process>, now: u64, k: int)
    requires
        1 <= k,
    ensures
        turns_from(procs, now, k) == 0 || (k <= turns_from(procs, now, k) <= procs.len()
            && runnable(rotated(procs, turns_from(procs, now, k))[0], now)),
    decreases procs.len() - k + 1,
{
    if k <= procs.len() && !runnable(rotated(procs, k)[0], now) {
        lemma_turns_bound(procs, now, k + 1);
    }
}

/// The processes after `j` calls of `schedule` that found the lock free.
pub open spec fn after_rounds(procs: Seq<Process>, now: u64, j: nat) -> Seq<Process>
    decreases j,
{
    if j == 0 {
        procs
    } else {
        scheduled(after_rounds(procs, now, (j - 1) as nat), now)
    }
}

/// Position, in the table before the first call, of the process that call
/// number `j` of as many calls as the table has processes chooses when all
/// processes are running.
pub open spec fn visited(procs: Seq<Process>, j: int) -> int {
    if j < procs.len() {
        j
    } else {
        0
    }
}

/// Number of the call, among as many calls as the table has processes, that
/// chooses the process which stood at position `i` before the first call.
pub open spec fn call_for(procs: Seq<Process>, i: int) -> int {
    if i == 0 {
        procs.len() as int
    } else {
        i
    }
}

/// In a table whose processes are all running, call number `j` of `schedule`
/// chooses the process that stood at position `j`, and the last of as many
/// calls as there are processes chooses the one that stood first: these
/// calls visit every process exactly once, and leave the table as it was
/// before the first of them.
pub proof fn lemma_round_robin(procs: Seq<Process>, now: u64, j: nat)
    requires
        forall|i: int| 0 <= i < procs.len() ==> (#[trigger] procs[i]).state == ProcessState::Running,
        1 <= j <= procs.len(),
    ensures
        after_rounds(procs, now, j) == rotated(procs, j as int),
        after_rounds(procs, now, j)[0] == procs[visited(procs, j as int)],
        chosen_frame(after_rounds(procs, now, (j - 1) as nat), now) == procs[visited(
            procs,
            j as int,
        )].frame_addr,
        j == procs.len() ==> after_rounds(procs, now, j) == procs,
        forall|a: int, b: int|
            1 <= a < b <= procs.len() ==> visited(procs, a) != visited(procs, b),
        forall|i: int|
            0 <= i < procs.len() ==> 1 <= #[trigger] call_for(procs, i) <= procs.len() && visited(
                procs,
                call_for(procs, i),
            ) == i,
    decreases j,
{
    let n = procs.len() as int;
    lemma_rotated_step_zero(procs);
    if j > 1 {
        lemma_round_robin(procs, now, (j - 1) as nat);
    }
    let before = after_rounds(procs, now, (j - 1) as nat);
    assert(before == rotated(procs, j - 1));
    lemma_rotated_index(procs, j - 1, 0);
    if n > 1 {
        lemma_rotated_index(procs, j - 1, 1);
    }
    assert(before.len() == n);
    let front = rotated(before, 1)[0];
    assert(front == before[if n > 1 {
        1int
    } else {
        0int
    }]);
    assert(front.state == ProcessState::Running);
    assert(turns(before, now) == 1);
    assert(Process { state: ProcessState::Running, ..front } == front);
    assert(rotated(before, 1).update(0, front) =~= rotated(before, 1));
    assert(rotated(before, 1) =~= rotated(procs, j as int));
    lemma_rotated_index(procs, j as int, 0);
}

/// Making a process running that is running already leaves the table as it
/// is, and with it what `schedule` does, at the next call and at every later
/// one.
pub proof fn lemma_set_running_idempotent(procs: Seq<Process>, pid: u16, now: u64, j: nat)
    requires
        has_pid(procs, pid),
        procs[pid_index(procs, pid)].state == ProcessState::Running,
    ensures
        ({
            let i = pid_index(procs, pid);
            let after = procs.update(i, Process { state: ProcessState::Running, ..procs[i] });
            &&& after == procs
            &&& chosen_frame(after, now) == chosen_frame(procs, now)
            &&& after_rounds(after, now, j) == after_rounds(procs, now, j)
        }),
{
    let i = pid_index(procs, pid);
    let after = procs.update(i, Process { state: ProcessState::Running, ..procs[i] });
    assert(Process { state: ProcessState::Running, ..procs[i] } == procs[i]);
    assert(after =~= procs);
}

} // verus!
