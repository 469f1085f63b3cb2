//! Tasks and the task manager: each task's saved context, address space and
//! per-syscall invocation counts, and round-robin selection of the next task
//! to run.
use vstd::prelude::*;
use crate::memory::AddressSpace;

verus! {

/// How many times `id` occurs in `history`.
pub open spec fn occurrences(history: Seq<usize>, id: usize) -> nat
    decreases history.len(),
{
    if history.len() == 0 {
        0
    } else {
        occurrences(history.drop_last(), id) + if history.last() == id {
            1nat
        } else {
            0nat
        }
    }
}

/// A count as reported to user code, which cannot exceed `isize::MAX`.
pub open spec fn capped(n: nat) -> nat {
    if n <= isize::MAX {
        n
    } else {
        isize::MAX as nat
    }
}

/// The number of invocations of one syscall.
pub struct SyscallCount {
    pub id: usize,
    pub count: usize,
}

/// The invocation count of each syscall number a task has used.
pub struct SyscallCounter {
    pub entries: Vec<SyscallCount>,
    /// The syscall numbers recorded so far, oldest first.
    pub history: Ghost<Seq<usize>>,
}

impl SyscallCounter {
    pub open spec fn has_entry(&self, id: usize) -> bool {
        exists|i: int| 0 <= i < self.entries@.len() && (#[trigger] self.entries@[i]).id == id
    }

    /// The stored count of `id`; 0 where it has no entry.
    pub open spec fn count(&self, id: usize) -> nat {
        if self.has_entry(id) {
            self.entries@[choose|i: int|
                0 <= i < self.entries@.len() && (#[trigger] self.entries@[i]).id == id].count as nat
        } else {
            0
        }
    }

    /// Entries have distinct syscall numbers, and each count is the number
    /// of times the history holds that number, capped at `isize::MAX`.
    pub open spec fn wf(&self) -> bool {
        &&& forall|i: int, j: int|
            #![trigger self.entries@[i], self.entries@[j]]
            0 <= i < self.entries@.len() && 0 <= j < self.entries@.len() && i != j
                ==> self.entries@[i].id != self.entries@[j].id
        &&& forall|id: usize| #[trigger] self.count(id) == capped(occurrences(self.history@, id))
    }

    /// A counter that has recorded nothing.
    pub fn new() -> (r: SyscallCounter)
        ensures
            r.wf(),
            r.history@ == Seq::<usize>::empty(),
            forall|id: usize| #[trigger] r.count(id) == 0,
    {
        let r = SyscallCounter { entries: Vec::new(), history: Ghost(Seq::empty()) };
        assert forall|id: usize| #[trigger] r.count(id) == capped(occurrences(r.history@, id)) by {
            assert(!r.has_entry(id));
        }
        r
    }

    /// The position of the entry for `id`, if any.
    fn find(&self, id: usize) -> (r: Option<usize>)
        requires
            self.wf(),
        ensures
            r.is_some() == self.has_entry(id),
            r matches Some(i) ==> i < self.entries@.len() && self.entries@[i as int].id == id
                && self.count(id) == self.entries@[i as int].count,
    {
        let mut i: usize = 0;
        while i < self.entries.len()
            invariant
                0 <= i <= self.entries@.len(),
                self.wf(),
                forall|k: int| 0 <= k < i ==> (#[trigger] self.entries@[k]).id != id,
            decreases self.entries@.len() - i,
        {
            if self.entries[i].id == id {
                proof {
                    assert(self.has_entry(id));
                    let j = choose|j: int|
                        0 <= j < self.entries@.len() && (#[trigger] self.entries@[j]).id == id;
                    if j != i {
                        assert(self.entries@[i as int].id != self.entries@[j].id);
                    }
                }
                return Some(i);
            }
            i += 1;
        }
        None
    }

    /// How many times `id` has been recorded (capped at `isize::MAX`).
    pub fn query(&self, id: usize) -> (r: usize)
        requires
            self.wf(),
        ensures
            r == self.count(id),
            r == capped(occurrences(self.history@, id)),
            r <= isize::MAX,
    {
        proof {
            assert(self.count(id) == capped(occurrences(self.history@, id)));
        }
        match self.find(id) {
            Some(i) => self.entries[i].count,
            None => 0,
        }
    }

    /// Records one more invocation of syscall `id`.
    pub fn record(&mut self, id: usize)
        requires
            old(self).wf(),
        ensures
            final(self).wf(),
            final(self).history@ == old(self).history@.push(id),
    {
        let ghost before = *self;
        let ghost h = self.history@.push(id);
        proof {
            assert(h.drop_last() =~= before.history@);
            assert forall|x: usize| #[trigger] occurrences(h, x) == occurrences(before.history@, x) + if x == id { 1nat } else { 0nat } by {
                assert(h.drop_last() =~= before.history@);
            }
        }
        match self.find(id) {
            Some(i) => {
                let c = self.entries[i].count;
                let n = if c < isize::MAX as usize { c + 1 } else { c };
                self.entries.set(i, SyscallCount { id, count: n });
                self.history = Ghost(h);
                proof {
                    assert forall|x: usize| #[trigger] self.count(x) == capped(occurrences(self.history@, x)) by {
                        let _ = before.count(x);
                        if before.has_entry(x) {
                            let j = choose|j: int|
                                0 <= j < before.entries@.len() && (#[trigger] before.entries@[j]).id == x;
                            assert(self.entries@[j].id == x);
                            assert(self.has_entry(x));
                            let k = choose|k: int|
                                0 <= k < self.entries@.len() && (#[trigger] self.entries@[k]).id == x;
                            if k != j {
                                assert(before.entries@[k].id != before.entries@[j].id);
                            }
                        } else {
                            if self.has_entry(x) {
                                let k = choose|k: int|
                                    0 <= k < self.entries@.len() && (#[trigger] self.entries@[k]).id == x;
                                assert(before.entries@[k].id == x);
                            }
                        }
                    }
                }
            },
            None => {
                self.entries.push(SyscallCount { id, count: 1 });
                self.history = Ghost(h);
                proof {
                    let last = before.entries@.len() as int;
                    assert(self.entries@[last].id == id);
                    assert forall|x: usize| #[trigger] self.count(x) == capped(occurrences(self.history@, x)) by {
                        let _ = before.count(x);
                        if self.has_entry(x) {
                            let k = choose|k: int|
                                0 <= k < self.entries@.len() && (#[trigger] self.entries@[k]).id == x;
                            if k < last {
                                assert(before.entries@[k].id == x);
                                assert(before.has_entry(x));
                                let j = choose|j: int|
                                    0 <= j < before.entries@.len() && (#[trigger] before.entries@[j]).id == x;
                                if k != j {
                                    assert(before.entries@[k].id != before.entries@[j].id);
                                }
                            } else {
                                assert(x == id);
                                if before.has_entry(x) {
                                    let j = choose|j: int|
                                        0 <= j < before.entries@.len() && (#[trigger] before.entries@[j]).id == x;
                                    assert(false);
                                }
                            }
                        } else {
                            assert(x != id);
                            if before.has_entry(x) {
                                let j = choose|j: int|
                                    0 <= j < before.entries@.len() && (#[trigger] before.entries@[j]).id == x;
                                assert(self.entries@[j].id == x);
                            }
                        }
                    }
                }
            },
        }
    }
}

/// Registers saved when a task is switched out: return address, stack
/// pointer and the callee-saved registers.
#[derive(Debug, Clone, Copy)]
pub struct TaskContext {
    pub ra: usize,
    pub sp: usize,
    pub s: [usize; 12],
}

#[derive(Debug, Clone, Copy, PartialEq, Eq, Structural)]
pub enum TaskStatus {
    Ready,
    Running,
    Exited,
}

pub struct TaskControlBlock {
    pub status: TaskStatus,
    pub context: TaskContext,
    pub space: AddressSpace,
    pub syscalls: SyscallCounter,
    pub exit_code: Option<i32>,
}

impl TaskControlBlock {
    /// A task carries an exit code exactly when it has exited.
    pub open spec fn wf(&self) -> bool {
        &&& self.space.wf()
        &&& self.syscalls.wf()
        &&& (self.status == TaskStatus::Exited) == self.exit_code.is_some()
    }

    /// Same saved registers, memory, counts and exit code: only the status
    /// may differ.
    pub open spec fn same_state(&self, other: &TaskControlBlock) -> bool {
        &&& self.context == other.context
        &&& self.space == other.space
        &&& self.syscalls == other.syscalls
        &&& self.exit_code == other.exit_code
    }
}

/// Position of task `j` in the round-robin order that starts at `start`.
pub open spec fn rr_offset(j: int, start: int, n: int) -> int {
    if j >= start {
        j - start
    } else {
        j + n - start
    }
}

pub struct TaskManager {
    pub tasks: Vec<TaskControlBlock>,
    pub current: Option<usize>,
}

impl TaskManager {
    /// Every task is well formed, and a task is running exactly when it is
    /// the current one.
    pub open spec fn wf(&self) -> bool {
        &&& forall|i: int| 0 <= i < self.tasks@.len() ==> (#[trigger] self.tasks@[i]).wf()
        &&& self.current matches Some(c) ==> c < self.tasks@.len()
        &&& forall|i: int|
            0 <= i < self.tasks@.len() ==> ((#[trigger] self.tasks@[i]).status == TaskStatus::Running)
                == self.is_current(i)
    }

    pub open spec fn is_current(&self, i: int) -> bool {
        self.current matches Some(c) && c == i
    }

    pub open spec fn has_current(&self) -> bool {
        self.current.is_some()
    }

    /// The task executing kernel code right now.
    pub open spec fn current_task(&self) -> TaskControlBlock {
        self.tasks@[self.current.unwrap() as int]
    }

    pub open spec fn is_ready(&self, i: int) -> bool {
        self.tasks@[i].status == TaskStatus::Ready
    }

    /// `j` is the first ready task met when going round the task table from
    /// `start`.
    pub open spec fn first_ready_from(&self, start: int, j: int) -> bool {
        let n = self.tasks@.len() as int;
        &&& 0 <= j < n
        &&& self.is_ready(j)
        &&& forall|k: int| 0 <= k < n && #[trigger] self.is_ready(k) ==> rr_offset(j, start, n) <= rr_offset(k, start, n)
    }

    /// Tasks that have exited stay exited, untouched.
    pub open spec fn exited_kept(&self, new: &TaskManager) -> bool {
        &&& self.tasks@.len() <= new.tasks@.len()
        &&& forall|i: int|
            0 <= i < self.tasks@.len() && (#[trigger] self.tasks@[i]).status == TaskStatus::Exited
                ==> new.tasks@[i] == self.tasks@[i]
    }

    /// A manager with no task.
    pub fn new() -> (r: TaskManager)
        ensures
            r.wf(),
            r.tasks@.len() == 0,
            r.current.is_none(),
    {
        TaskManager { tasks: Vec::new(), current: None }
    }

    /// Adds a ready task with the given saved context and address space, and
    /// returns its index.
    pub fn add_task(&mut self, context: TaskContext, space: AddressSpace) -> (id: usize)
        requires
            old(self).wf(),
            space.wf(),
            old(self).tasks@.len() < usize::MAX,
        ensures
            final(self).wf(),
            id == old(self).tasks@.len(),
            final(self).current == old(self).current,
            final(self).tasks@.len() == old(self).tasks@.len() + 1,
            forall|i: int| 0 <= i < id ==> #[trigger] final(self).tasks@[i] == old(self).tasks@[i],
            final(self).tasks@[id as int].status == TaskStatus::Ready,
            final(self).tasks@[id as int].context == context,
            final(self).tasks@[id as int].space == space,
            final(self).tasks@[id as int].syscalls.history@ == Seq::<usize>::empty(),
            old(self).exited_kept(final(self)),
    {
        let id = self.tasks.len();
        let tcb = TaskControlBlock {
            status: TaskStatus::Ready,
            context,
            space,
            syscalls: SyscallCounter::new(),
            exit_code: None,
        };
        self.tasks.push(tcb);
        id
    }

    /// The first ready task in round-robin order from `start`; `None` where
    /// no task is ready.
    pub fn find_ready_from(&self, start: usize) -> (r: Option<usize>)
        requires
            start <= self.tasks@.len(),
        ensures
            match r {
                Some(j) => self.first_ready_from(start as int, j as int),
                None => forall|k: int| 0 <= k < self.tasks@.len() ==> !#[trigger] self.is_ready(k),
            },
    {
        let n = self.tasks.len();
        let mut i: usize = start;
        while i < n
            invariant
                start <= i <= n,
                n == self.tasks@.len(),
                forall|k: int| start <= k < i ==> !#[trigger] self.is_ready(k),
            decreases n - i,
        {
            if self.tasks[i].status == TaskStatus::Ready {
                return Some(i);
            }
            i += 1;
        }
        let mut i: usize = 0;
        while i < start
            invariant
                0 <= i <= start <= n,
                n == self.tasks@.len(),
                forall|k: int| start <= k < n ==> !#[trigger] self.is_ready(k),
                forall|k: int| 0 <= k < i ==> !#[trigger] self.is_ready(k),
            decreases start - i,
        {
            if self.tasks[i].status == TaskStatus::Ready {
                return Some(i);
            }
            i += 1;
        }
        None
    }

    /// Switches to the first ready task after `start - 1` in round-robin
    /// order, or leaves the processor idle where no task is ready.
    fn run_next_task(&mut self, start: usize)
        requires
            old(self).wf(),
            old(self).current.is_none(),
            start <= old(self).tasks@.len(),
        ensures
            final(self).wf(),
            final(self).tasks@.len() == old(self).tasks@.len(),
            match final(self).current {
                Some(j) => old(self).first_ready_from(start as int, j as int),
                None => forall|k: int| 0 <= k < old(self).tasks@.len() ==> !#[trigger] old(self).is_ready(k),
            },
            forall|i: int|
                0 <= i < old(self).tasks@.len() && !final(self).is_current(i)
                    ==> #[trigger] final(self).tasks@[i] == old(self).tasks@[i],
            forall|i: int|
                0 <= i < old(self).tasks@.len() ==> (#[trigger] final(self).tasks@[i]).same_state(&old(self).tasks@[i]),
    {
        match self.find_ready_from(start) {
            Some(j) => {
                self.tasks[j].status = TaskStatus::Running;
                self.current = Some(j);
            },
            None => {},
        }
    }

    /// Starts running the first ready task, where none runs yet; the
    /// processor stays idle where no task is ready.
    pub fn run_first_task(&mut self)
        requires
            old(self).wf(),
            old(self).current.is_none(),
        ensures
            final(self).wf(),
            final(self).tasks@.len() == old(self).tasks@.len(),
            match final(self).current {
                Some(j) => old(self).first_ready_from(0, j as int),
                None => forall|k: int| 0 <= k < old(self).tasks@.len() ==> !#[trigger] old(self).is_ready(k),
            },
            forall|i: int|
                0 <= i < old(self).tasks@.len() && !final(self).is_current(i)
                    ==> #[trigger] final(self).tasks@[i] == old(self).tasks@[i],
            forall|i: int|
                0 <= i < old(self).tasks@.len() ==> (#[trigger] final(self).tasks@[i]).same_state(&old(self).tasks@[i]),
            old(self).exited_kept(final(self)),
    {
        self.run_next_task(0);
    }

    /// Puts the current task back among the ready ones and switches to the
    /// next ready task in round-robin order, which is the same task where no
    /// other is ready.
    pub fn suspend_current_and_run_next(&mut self)
        requires
            old(self).wf(),
            old(self).has_current(),
        ensures
            final(self).wf(),
            final(self).has_current(),
            final(self).tasks@.len() == old(self).tasks@.len(),
            ({
                let c = old(self).current.unwrap() as int;
                let j = final(self).current.unwrap() as int;
                &&& forall|k: int| 0 <= k < old(self).tasks@.len() && k != c && #[trigger] old(self).is_ready(k)
                    ==> rr_offset(j, c + 1, old(self).tasks@.len() as int) <= rr_offset(k, c + 1, old(self).tasks@.len() as int)
                &&& (j == c || old(self).is_ready(j))
                &&& j != c ==> final(self).tasks@[c].status == TaskStatus::Ready
                &&& forall|i: int| 0 <= i < old(self).tasks@.len() && i != c && i != j
                    ==> #[trigger] final(self).tasks@[i] == old(self).tasks@[i]
            }),
            forall|i: int|
                0 <= i < old(self).tasks@.len() ==> (#[trigger] final(self).tasks@[i]).same_state(&old(self).tasks@[i]),
            old(self).exited_kept(final(self)),
    {
        let ghost before = *self;
        let n = self.tasks.len();
        let c = self.current.unwrap();
        self.tasks[c].status = TaskStatus::Ready;
        self.current = None;
        let ghost mid = *self;
        proof {
            assert forall|i: int| 0 <= i < n implies (#[trigger] self.tasks@[i]).wf() by {
                assert(before.tasks@[i].wf());
            }
            assert forall|i: int| 0 <= i < n implies ((#[trigger] self.tasks@[i]).status == TaskStatus::Running) == self.is_current(i) by {
                assert(before.tasks@[i].status == TaskStatus::Running <==> before.is_current(i));
            }
            assert(mid.is_ready(c as int));
            assert forall|k: int| 0 <= k < n && k != c implies #[trigger] mid.is_ready(k) == before.is_ready(k) by {}
        }
        self.run_next_task(c + 1);
        proof {
            let j = self.current.unwrap() as int;
            assert forall|k: int| 0 <= k < n && k != c && #[trigger] before.is_ready(k)
                implies rr_offset(j, c + 1, n as int) <= rr_offset(k, c + 1, n as int) by {
                assert(mid.is_ready(k));
            }
        }
    }

    /// Marks the current task exited with `exit_code`, releases its memory
    /// and switches to the next ready task in round-robin order, or leaves
    /// the processor idle where none is ready.
    pub fn exit_current_and_run_next(&mut self, exit_code: i32)
        requires
            old(self).wf(),
            old(self).has_current(),
        ensures
            final(self).wf(),
            final(self).tasks@.len() == old(self).tasks@.len(),
            ({
                let c = old(self).current.unwrap() as int;
                let t = final(self).tasks@[c];
                &&& t.status == TaskStatus::Exited
                &&& t.exit_code == Some(exit_code)
                &&& t.space.areas@.len() == 0
                &&& t.context == old(self).tasks@[c].context
                &&& t.syscalls == old(self).tasks@[c].syscalls
                &&& !final(self).is_current(c)
                &&& match final(self).current {
                    Some(j) => old(self).first_ready_from(c + 1, j as int),
                    None => forall|k: int| 0 <= k < old(self).tasks@.len() ==> !#[trigger] old(self).is_ready(k),
                }
                &&& forall|i: int| 0 <= i < old(self).tasks@.len() && i != c && !final(self).is_current(i)
                    ==> #[trigger] final(self).tasks@[i] == old(self).tasks@[i]
            }),
            forall|i: int|
                0 <= i < old(self).tasks@.len() && i != old(self).current.unwrap() ==> (#[trigger] final(self).tasks@[i]).same_state(&old(self).tasks@[i]),
            old(self).exited_kept(final(self)),
    {
        let ghost before = *self;
        let n = self.tasks.len();
        let c = self.current.unwrap();
        self.tasks[c].status = TaskStatus::Exited;
        self.tasks[c].exit_code = Some(exit_code);
        self.tasks[c].space.clear();
        self.current = None;
        proof {
            assert forall|i: int| 0 <= i < n implies (#[trigger] self.tasks@[i]).wf() by {
                assert(before.tasks@[i].wf());
            }
            assert forall|i: int| 0 <= i < n implies ((#[trigger] self.tasks@[i]).status == TaskStatus::Running) == self.is_current(i) by {
                assert(before.tasks@[i].status == TaskStatus::Running <==> before.is_current(i));
            }
        }
        let ghost mid = *self;
        proof {
            assert forall|k: int| 0 <= k < n implies #[trigger] mid.is_ready(k) == before.is_ready(k) by {
                assert(before.tasks@[k].status == TaskStatus::Running <==> before.is_current(k));
            }
        }
        self.run_next_task(c + 1);
        proof {
            match self.current {
                Some(j) => {
                    assert forall|k: int| 0 <= k < n && #[trigger] before.is_ready(k)
                        implies rr_offset(j as int, c + 1, n as int) <= rr_offset(k, c + 1, n as int) by {
                        assert(mid.is_ready(k));
                    }
                    assert(mid.is_ready(j as int));
                },
                None => {
                    assert forall|k: int| 0 <= k < n implies !#[trigger] before.is_ready(k) by {
                        assert(!mid.is_ready(k));
                    }
                },
            }
        }
    }

    /// Records one invocation of syscall `id` by the current task.
    pub fn record_syscall(&mut self, id: usize)
        requires
            old(self).wf(),
            old(self).has_current(),
        ensures
            final(self).wf(),
            final(self).current == old(self).current,
            final(self).tasks@.len() == old(self).tasks@.len(),
            ({
                let c = old(self).current.unwrap() as int;
                let t = final(self).tasks@[c];
                let o = old(self).tasks@[c];
                &&& t.syscalls.history@ == o.syscalls.history@.push(id)
                &&& t.status == o.status && t.context == o.context && t.space == o.space
                    && t.exit_code == o.exit_code
                &&& forall|i: int| 0 <= i < old(self).tasks@.len() && i != c
                    ==> #[trigger] final(self).tasks@[i] == old(self).tasks@[i]
            }),
            old(self).exited_kept(final(self)),
    {
        let c = self.current.unwrap();
        self.tasks[c].syscalls.record(id);
    }

    /// How many times the current task has invoked syscall `id`.
    pub fn get_syscall_count(&self, id: usize) -> (r: usize)
        requires
            self.wf(),
            self.has_current(),
        ensures
            r == capped(occurrences(self.current_task().syscalls.history@, id)),
            r <= isize::MAX,
    {
        let c = self.current.unwrap();
        self.tasks[c].syscalls.query(id)
    }
}

} // verus!
