//! Process management syscalls.
use vstd::prelude::*;
use crate::task::{capped, occurrences, rr_offset, TaskManager, TaskStatus};

verus! {

/// Number of microseconds in one second.
pub const USEC_PER_SEC: usize = 1_000_000;

/// Elapsed time since the timer's epoch, split into seconds and microseconds.
#[derive(Debug, Clone, Copy, PartialEq, Eq)]
pub struct TimeVal {
    pub sec: usize,
    pub usec: usize,
}

/// Fills `ts` with the time `now_us` (microseconds read from the timer)
/// split into seconds and microseconds. The time zone is reserved and has no
/// effect. Always returns 0.
pub fn sys_get_time(ts: &mut TimeVal, _tz: usize, now_us: usize) -> (r: isize)
    ensures
        r == 0,
        final(ts).sec == now_us / USEC_PER_SEC,
        final(ts).usec == now_us % USEC_PER_SEC,
        final(ts).sec * USEC_PER_SEC + final(ts).usec == now_us,
        final(ts).usec < USEC_PER_SEC,
{
    *ts = TimeVal { sec: now_us / USEC_PER_SEC, usec: now_us % USEC_PER_SEC };
    proof {
        lemma_time_decomposition(now_us as nat);
    }
    0
}

/// Splitting a microsecond count into whole seconds and the remaining
/// microseconds loses nothing: `sec * 1_000_000 + usec` gives the count back,
/// and `usec` stays below one second.
pub proof fn lemma_time_decomposition(us: nat)
    ensures
        (us / (USEC_PER_SEC as nat)) * (USEC_PER_SEC as nat) + us % (USEC_PER_SEC as nat) == us,
        us % (USEC_PER_SEC as nat) < USEC_PER_SEC,
{
    vstd::arithmetic::div_mod::lemma_fundamental_div_mod(us as int, USEC_PER_SEC as int);
}

/// Returned by `sys_trace` for a request code it does not know.
pub const ERR_UNSUPPORTED: isize = -1;

/// Returned by `sys_trace` for an address that is not mapped in the calling
/// task with the permission the access needs.
pub const ERR_BAD_ADDRESS: isize = -14;

/// The operations of the trace syscall, selected by its request code.
#[derive(Debug, Clone, Copy, PartialEq, Eq, Structural)]
pub enum TraceRequest {
    /// Code 0: read the byte at an address.
    ReadByte,
    /// Code 1: write one byte at an address.
    WriteByte,
    /// Code 2: how often the calling task invoked a syscall number.
    QuerySyscallCount,
    /// Any other code.
    Unsupported,
}

impl TraceRequest {
    pub open spec fn spec_from_code(code: usize) -> TraceRequest {
        if code == 0 {
            TraceRequest::ReadByte
        } else if code == 1 {
            TraceRequest::WriteByte
        } else if code == 2 {
            TraceRequest::QuerySyscallCount
        } else {
            TraceRequest::Unsupported
        }
    }

    /// Decodes a request code.
    pub fn from_code(code: usize) -> (r: TraceRequest)
        ensures
            r == Self::spec_from_code(code),
    {
        match code {
            0 => TraceRequest::ReadByte,
            1 => TraceRequest::WriteByte,
            2 => TraceRequest::QuerySyscallCount,
            _ => TraceRequest::Unsupported,
        }
    }
}

/// `after` is `before` with the byte at `addr` of the current task's memory
/// set to `b`, and nothing else changed.
pub open spec fn current_byte_written(before: TaskManager, after: TaskManager, addr: int, b: u8) -> bool {
    let c = before.current.unwrap() as int;
    let o = before.tasks@[c];
    let t = after.tasks@[c];
    &&& after.current == before.current
    &&& after.tasks@.len() == before.tasks@.len()
    &&& forall|i: int| 0 <= i < before.tasks@.len() && i != c ==> #[trigger] after.tasks@[i] == before.tasks@[i]
    &&& t.status == o.status
    &&& t.context == o.context
    &&& t.syscalls == o.syscalls
    &&& t.exit_code == o.exit_code
    &&& o.space.written(&t.space, addr, b)
}

/// What `sys_trace(request, id, data)` returns and does, from state `before`
/// to state `after`.
pub open spec fn trace_outcome(before: TaskManager, after: TaskManager, request: usize, id: usize, data: usize, r: isize) -> bool {
    let task = before.current_task();
    match TraceRequest::spec_from_code(request) {
        TraceRequest::ReadByte => after == before && r == if task.space.readable(id as int) {
            task.space.byte(id as int) as isize
        } else {
            ERR_BAD_ADDRESS
        },
        TraceRequest::WriteByte => if task.space.writable(id as int) {
            r == 0 && current_byte_written(before, after, id as int, (data % 256) as u8)
        } else {
            r == ERR_BAD_ADDRESS && after == before
        },
        TraceRequest::QuerySyscallCount => after == before && r == capped(
            occurrences(task.syscalls.history@, id),
        ),
        TraceRequest::Unsupported => after == before && r == ERR_UNSUPPORTED,
    }
}

/// A count query by a task that has never invoked syscall `n` returns 0.
pub proof fn lemma_count_of_unused_syscall(before: TaskManager, after: TaskManager, n: usize, data: usize, r: isize)
    requires
        before.wf(),
        before.has_current(),
        trace_outcome(before, after, 2, n, data, r),
        !before.current_task().syscalls.history@.contains(n),
    ensures
        r == 0,
        after == before,
{
    lemma_occurrences_of_absent(before.current_task().syscalls.history@, n);
}

proof fn lemma_occurrences_of_absent(h: Seq<usize>, n: usize)
    requires
        !h.contains(n),
    ensures
        occurrences(h, n) == 0,
    decreases h.len(),
{
    if h.len() > 0 {
        let t = h.drop_last();
        if t.contains(n) {
            let i = choose|i: int| 0 <= i < t.len() && t[i] == n;
            assert(h[i] == n);
        }
        if h.last() == n {
            assert(h[h.len() - 1] == n);
        }
        lemma_occurrences_of_absent(t, n);
    }
}

/// A count query for syscall `n` returns the number of times the calling
/// task has invoked `n`, where that number fits in the result.
pub proof fn lemma_count_of_invocations(before: TaskManager, after: TaskManager, n: usize, data: usize, r: isize, k: nat)
    requires
        before.wf(),
        before.has_current(),
        trace_outcome(before, after, 2, n, data, r),
        before.current_task().syscalls.history@.filter(|x: usize| x == n).len() == k,
        k <= isize::MAX,
    ensures
        r == k,
        after == before,
{
    lemma_occurrences_is_filter_len(before.current_task().syscalls.history@, n);
}

/// `occurrences` counts the elements equal to `n`.
pub proof fn lemma_occurrences_is_filter_len(h: Seq<usize>, n: usize)
    ensures
        occurrences(h, n) == h.filter(|x: usize| x == n).len(),
    decreases h.len(),
{
    reveal(Seq::filter);
    if h.len() > 0 {
        lemma_occurrences_is_filter_len(h.drop_last(), n);
    }
}

/// Writing a byte with request 1 and reading it back with request 0 gives
/// the low byte of the value written, at an address mapped readable and
/// writable in the calling task.
pub proof fn lemma_write_then_read(
    m0: TaskManager,
    m1: TaskManager,
    m2: TaskManager,
    addr: usize,
    v: usize,
    d: usize,
    r1: isize,
    r2: isize,
)
    requires
        m0.wf(),
        m0.has_current(),
        m0.current_task().space.readable(addr as int),
        m0.current_task().space.writable(addr as int),
        trace_outcome(m0, m1, 1, addr, v, r1),
        trace_outcome(m1, m2, 0, addr, d, r2),
    ensures
        r1 == 0,
        r2 == v % 256,
{
    let c = m0.current.unwrap() as int;
    assert(m0.tasks@[c].wf());
    m0.current_task().space.lemma_written(&m1.current_task().space, addr as int, (v % 256) as u8);
}

/// A request code other than 0, 1 and 2 returns `ERR_UNSUPPORTED` and
/// changes nothing.
pub proof fn lemma_unsupported_request(before: TaskManager, after: TaskManager, request: usize, id: usize, data: usize, r: isize)
    requires
        trace_outcome(before, after, request, id, data, r),
        request != 0 && request != 1 && request != 2,
    ensures
        r == -1,
        after == before,
{
}

/// A byte access at an address not mapped with the permission it needs
/// returns `ERR_BAD_ADDRESS`, which no successful access or other error
/// returns, and changes nothing.
pub proof fn lemma_bad_address(before: TaskManager, after: TaskManager, request: usize, addr: usize, data: usize, r: isize)
    requires
        trace_outcome(before, after, request, addr, data, r),
        (request == 0 && !before.current_task().space.readable(addr as int)) || (request == 1
            && !before.current_task().space.writable(addr as int)),
    ensures
        r == ERR_BAD_ADDRESS,
        after == before,
        r < 0,
        r != ERR_UNSUPPORTED,
{
}

/// A task that has exited stays exited and is never current again, in
/// every later state whose operations all keep exited tasks.
pub proof fn lemma_exited_task_never_runs(before: TaskManager, after: TaskManager, i: int)
    requires
        before.wf(),
        after.wf(),
        before.exited_kept(&after),
        0 <= i < before.tasks@.len(),
        before.tasks@[i].status == TaskStatus::Exited,
    ensures
        after.tasks@[i].status == TaskStatus::Exited,
        !after.is_current(i),
{
    assert(after.tasks@[i].status == TaskStatus::Running <==> after.is_current(i));
}

/// Ends the current task with `exit_code`: it is marked exited, its memory
/// is released and the next ready task in round-robin order runs. The task
/// is never current again.
pub fn sys_exit(tm: &mut TaskManager, exit_code: i32)
    requires
        old(tm).wf(),
        old(tm).has_current(),
    ensures
        final(tm).wf(),
        final(tm).tasks@.len() == old(tm).tasks@.len(),
        final(tm).tasks@[old(tm).current.unwrap() as int].status == TaskStatus::Exited,
        final(tm).tasks@[old(tm).current.unwrap() as int].exit_code == Some(exit_code),
        final(tm).tasks@[old(tm).current.unwrap() as int].space.areas@.len() == 0,
        final(tm).tasks@[old(tm).current.unwrap() as int].context == old(tm).current_task().context,
        final(tm).tasks@[old(tm).current.unwrap() as int].syscalls == old(tm).current_task().syscalls,
        forall|i: int|
            0 <= i < old(tm).tasks@.len() && i != old(tm).current.unwrap() && !final(tm).is_current(i)
                ==> #[trigger] final(tm).tasks@[i] == old(tm).tasks@[i],
        forall|i: int|
            0 <= i < old(tm).tasks@.len() && i != old(tm).current.unwrap()
                ==> (#[trigger] final(tm).tasks@[i]).same_state(&old(tm).tasks@[i]),
        !final(tm).is_current(old(tm).current.unwrap() as int),
        match final(tm).current {
            Some(j) => old(tm).first_ready_from(old(tm).current.unwrap() + 1, j as int),
            None => forall|k: int| 0 <= k < old(tm).tasks@.len() ==> !#[trigger] old(tm).is_ready(k),
        },
        old(tm).exited_kept(final(tm)),
{
    tm.exit_current_and_run_next(exit_code);
}

/// The current task gives up the processor to the next ready task in
/// round-robin order (itself where no other is ready), and gets 0 back. No
/// task's registers, memory, counts or exit code change.
pub fn sys_yield(tm: &mut TaskManager) -> (r: isize)
    requires
        old(tm).wf(),
        old(tm).has_current(),
    ensures
        r == 0,
        final(tm).wf(),
        final(tm).has_current(),
        final(tm).tasks@.len() == old(tm).tasks@.len(),
        forall|i: int|
            0 <= i < old(tm).tasks@.len() ==> (#[trigger] final(tm).tasks@[i]).same_state(&old(tm).tasks@[i]),
        ({
            let c = old(tm).current.unwrap() as int;
            let j = final(tm).current.unwrap() as int;
            &&& j == c || old(tm).is_ready(j)
            &&& forall|k: int| 0 <= k < old(tm).tasks@.len() && k != c && #[trigger] old(tm).is_ready(k)
                ==> rr_offset(j, c + 1, old(tm).tasks@.len() as int) <= rr_offset(k, c + 1, old(tm).tasks@.len() as int)
            &&& j != c ==> final(tm).tasks@[c].status == TaskStatus::Ready
            &&& forall|i: int| 0 <= i < old(tm).tasks@.len() && i != c && i != j
                ==> #[trigger] final(tm).tasks@[i] == old(tm).tasks@[i]
        }),
        old(tm).exited_kept(final(tm)),
{
    tm.suspend_current_and_run_next();
    0
}

/// The diagnostic syscall. Request 0 reads the byte at address `id`, request
/// 1 writes the low byte of `data` there and returns 0; both fail with
/// `ERR_BAD_ADDRESS`, changing nothing, where `id` is not mapped in the
/// calling task with the permission needed. Request 2 returns how many times
/// the calling task has invoked syscall `id`. Any other request returns
/// `ERR_UNSUPPORTED` and changes nothing.
pub fn sys_trace(tm: &mut TaskManager, trace_request: usize, id: usize, data: usize) -> (r: isize)
    requires
        old(tm).wf(),
        old(tm).has_current(),
    ensures
        final(tm).wf(),
        trace_outcome(*old(tm), *final(tm), trace_request, id, data, r),
        old(tm).exited_kept(final(tm)),
{
    let c = tm.current.unwrap();
    match TraceRequest::from_code(trace_request) {
        TraceRequest::ReadByte => {
            match tm.tasks[c].space.read_byte(id) {
                Some(b) => b as isize,
                None => ERR_BAD_ADDRESS,
            }
        },
        TraceRequest::WriteByte => {
            if !tm.tasks[c].space.validate_writable(id) {
                return ERR_BAD_ADDRESS;
            }
            let ghost before = *tm;
            let b = (data % 256) as u8;
            let ok = tm.tasks[c].space.write_byte(id, b);
            proof {
                assert(ok);
                assert(current_byte_written(before, *tm, id as int, b));
            }
            0
        },
        TraceRequest::QuerySyscallCount => {
            tm.get_syscall_count(id) as isize
        },
        TraceRequest::Unsupported => ERR_UNSUPPORTED,
    }
}

} // verus!
