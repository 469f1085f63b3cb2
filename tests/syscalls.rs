use task_syscalls::memory::{AddressSpace, MapArea};
use task_syscalls::process::{
    sys_exit, sys_get_time, sys_trace, sys_yield, TimeVal, TraceRequest, ERR_BAD_ADDRESS,
    ERR_UNSUPPORTED,
};
use task_syscalls::task::{TaskContext, TaskManager, TaskStatus};

const RW_BASE: usize = 0x1000;
const RO_BASE: usize = 0x2000;
const WO_BASE: usize = 0x3000;

fn context(sp: usize) -> TaskContext {
    TaskContext { ra: 0x80, sp, s: [7; 12] }
}

fn space() -> AddressSpace {
    let mut s = AddressSpace::new();
    assert!(s.map_area(MapArea { start: RW_BASE, data: vec![0u8; 16], readable: true, writable: true }));
    assert!(s.map_area(MapArea { start: RO_BASE, data: vec![9u8; 4], readable: true, writable: false }));
    assert!(s.map_area(MapArea { start: WO_BASE, data: vec![5u8; 4], readable: false, writable: true }));
    s
}

/// A manager with `n` tasks, the first one running.
fn manager(n: usize) -> TaskManager {
    let mut tm = TaskManager::new();
    for i in 0..n {
        assert_eq!(tm.add_task(context(0x8000 + i), space()), i);
    }
    tm.run_first_task();
    assert_eq!(tm.current, Some(0));
    tm
}

#[test]
fn get_time_splits_microseconds() {
    let mut ts = TimeVal { sec: 7, usec: 7 };
    assert_eq!(sys_get_time(&mut ts, 0, 3_500_123), 0);
    assert_eq!(ts, TimeVal { sec: 3, usec: 500_123 });
}

#[test]
fn get_time_edges() {
    let mut ts = TimeVal { sec: 1, usec: 1 };
    assert_eq!(sys_get_time(&mut ts, 0, 0), 0);
    assert_eq!(ts, TimeVal { sec: 0, usec: 0 });
    assert_eq!(sys_get_time(&mut ts, 8, 999_999), 0);
    assert_eq!(ts, TimeVal { sec: 0, usec: 999_999 });
    assert_eq!(sys_get_time(&mut ts, 0, 1_000_000), 0);
    assert_eq!(ts, TimeVal { sec: 1, usec: 0 });
}

#[test]
fn get_time_recombines_for_large_values() {
    for us in [1usize, 59_999_999, 123_456_789_012, usize::MAX] {
        let mut ts = TimeVal { sec: 0, usec: 0 };
        sys_get_time(&mut ts, 0, us);
        assert!(ts.usec < 1_000_000);
        assert_eq!(ts.sec * 1_000_000 + ts.usec, us);
    }
}

#[test]
fn trace_request_codes() {
    assert_eq!(TraceRequest::from_code(0), TraceRequest::ReadByte);
    assert_eq!(TraceRequest::from_code(1), TraceRequest::WriteByte);
    assert_eq!(TraceRequest::from_code(2), TraceRequest::QuerySyscallCount);
    assert_eq!(TraceRequest::from_code(3), TraceRequest::Unsupported);
    assert_eq!(TraceRequest::from_code(usize::MAX), TraceRequest::Unsupported);
}

#[test]
fn trace_reads_mapped_byte() {
    let mut tm = manager(1);
    assert_eq!(sys_trace(&mut tm, 0, RO_BASE + 3, 0), 9);
    assert_eq!(sys_trace(&mut tm, 0, RW_BASE, 0), 0);
}

#[test]
fn trace_write_then_read_truncates_to_byte() {
    let mut tm = manager(1);
    assert_eq!(sys_trace(&mut tm, 1, RW_BASE + 5, 0x1ff), 0);
    assert_eq!(sys_trace(&mut tm, 0, RW_BASE + 5, 0), 0xff);
    assert_eq!(tm.tasks[0].space.areas[0].data[5], 0xff);
    assert_eq!(sys_trace(&mut tm, 1, RW_BASE + 15, 300), 0);
    assert_eq!(sys_trace(&mut tm, 0, RW_BASE + 15, 0), 44);
    // neighbours untouched
    assert_eq!(sys_trace(&mut tm, 0, RW_BASE + 4, 0), 0);
    assert_eq!(sys_trace(&mut tm, 0, RW_BASE + 6, 0), 0);
    assert_eq!(sys_trace(&mut tm, 0, RW_BASE + 14, 0), 0);
}

#[test]
fn trace_bad_address_on_unmapped() {
    let mut tm = manager(1);
    assert_eq!(sys_trace(&mut tm, 0, 0, 0), ERR_BAD_ADDRESS);
    assert_eq!(sys_trace(&mut tm, 0, RW_BASE + 16, 0), ERR_BAD_ADDRESS);
    assert_eq!(sys_trace(&mut tm, 1, RW_BASE - 1, 3), ERR_BAD_ADDRESS);
    assert_eq!(sys_trace(&mut tm, 1, usize::MAX, 3), ERR_BAD_ADDRESS);
    assert!(ERR_BAD_ADDRESS < 0 && ERR_BAD_ADDRESS != ERR_UNSUPPORTED);
    assert!(tm.tasks[0].space.areas[0].data.iter().all(|b| *b == 0));
}

#[test]
fn trace_bad_address_on_permission() {
    let mut tm = manager(1);
    assert_eq!(sys_trace(&mut tm, 1, RO_BASE, 1), ERR_BAD_ADDRESS);
    assert_eq!(tm.tasks[0].space.areas[1].data, vec![9u8; 4]);
    assert_eq!(sys_trace(&mut tm, 0, WO_BASE, 0), ERR_BAD_ADDRESS);
    assert_eq!(sys_trace(&mut tm, 1, WO_BASE + 1, 2), 0);
    assert_eq!(tm.tasks[0].space.areas[2].data, vec![5u8, 2, 5, 5]);
}

#[test]
fn trace_unsupported_request() {
    let mut tm = manager(2);
    for r in [3usize, 4, 100, usize::MAX] {
        assert_eq!(sys_trace(&mut tm, r, RW_BASE, 1), ERR_UNSUPPORTED);
    }
    assert_eq!(ERR_UNSUPPORTED, -1);
    assert_eq!(tm.current, Some(0));
    assert!(tm.tasks[0].space.areas[0].data.iter().all(|b| *b == 0));
    assert_eq!(tm.get_syscall_count(RW_BASE), 0);
}

#[test]
fn trace_counts_syscalls() {
    let mut tm = manager(1);
    assert_eq!(sys_trace(&mut tm, 2, 64, 0), 0);
    tm.record_syscall(64);
    tm.record_syscall(410);
    tm.record_syscall(64);
    tm.record_syscall(64);
    assert_eq!(sys_trace(&mut tm, 2, 64, 0), 3);
    assert_eq!(sys_trace(&mut tm, 2, 410, 0), 1);
    assert_eq!(sys_trace(&mut tm, 2, 93, 0), 0);
    assert_eq!(sys_trace(&mut tm, 2, usize::MAX, 0), 0);
}

#[test]
fn syscall_counts_are_per_task() {
    let mut tm = manager(2);
    tm.record_syscall(124);
    tm.record_syscall(124);
    assert_eq!(sys_yield(&mut tm), 0);
    assert_eq!(tm.current, Some(1));
    assert_eq!(sys_trace(&mut tm, 2, 124, 0), 0);
    tm.record_syscall(124);
    assert_eq!(sys_trace(&mut tm, 2, 124, 0), 1);
    assert_eq!(sys_yield(&mut tm), 0);
    assert_eq!(tm.current, Some(0));
    assert_eq!(sys_trace(&mut tm, 2, 124, 0), 2);
}

#[test]
fn yield_round_robin() {
    let mut tm = manager(3);
    assert_eq!(sys_yield(&mut tm), 0);
    assert_eq!(tm.current, Some(1));
    assert_eq!(tm.tasks[0].status, TaskStatus::Ready);
    assert_eq!(tm.tasks[1].status, TaskStatus::Running);
    assert_eq!(sys_yield(&mut tm), 0);
    assert_eq!(tm.current, Some(2));
    assert_eq!(sys_yield(&mut tm), 0);
    assert_eq!(tm.current, Some(0));
}

#[test]
fn yield_alone_keeps_running() {
    let mut tm = manager(1);
    assert_eq!(sys_yield(&mut tm), 0);
    assert_eq!(tm.current, Some(0));
    assert_eq!(tm.tasks[0].status, TaskStatus::Running);
}

#[test]
fn yield_keeps_task_state() {
    let mut tm = manager(2);
    assert_eq!(sys_trace(&mut tm, 1, RW_BASE + 2, 77), 0);
    assert_eq!(sys_yield(&mut tm), 0);
    assert_eq!(sys_yield(&mut tm), 0);
    assert_eq!(tm.current, Some(0));
    assert_eq!(tm.tasks[0].context.sp, 0x8000);
    assert_eq!(tm.tasks[0].context.ra, 0x80);
    assert_eq!(tm.tasks[0].context.s, [7; 12]);
    assert_eq!(sys_trace(&mut tm, 0, RW_BASE + 2, 0), 77);
    assert_eq!(tm.tasks[1].context.sp, 0x8001);
}

#[test]
fn exit_switches_and_never_returns() {
    let mut tm = manager(3);
    sys_exit(&mut tm, 0);
    assert_eq!(tm.tasks[0].status, TaskStatus::Exited);
    assert_eq!(tm.tasks[0].exit_code, Some(0));
    assert!(tm.tasks[0].space.areas.is_empty());
    assert_eq!(tm.current, Some(1));
    sys_exit(&mut tm, -3);
    assert_eq!(tm.tasks[1].exit_code, Some(-3));
    assert_eq!(tm.current, Some(2));
    assert_eq!(sys_yield(&mut tm), 0);
    assert_eq!(tm.current, Some(2));
    sys_exit(&mut tm, i32::MIN);
    assert_eq!(tm.current, None);
    assert!(tm.tasks.iter().all(|t| t.status == TaskStatus::Exited));
}

#[test]
fn exit_skips_exited_tasks() {
    let mut tm = manager(3);
    assert_eq!(sys_yield(&mut tm), 0);
    assert_eq!(tm.current, Some(1));
    sys_exit(&mut tm, 1);
    assert_eq!(tm.current, Some(2));
    assert_eq!(sys_yield(&mut tm), 0);
    assert_eq!(tm.current, Some(0));
    assert_eq!(sys_yield(&mut tm), 0);
    assert_eq!(tm.current, Some(2));
}

#[test]
fn first_task_needs_a_ready_task() {
    let mut tm = TaskManager::new();
    tm.run_first_task();
    assert_eq!(tm.current, None);
    assert_eq!(tm.add_task(context(1), AddressSpace::new()), 0);
    tm.run_first_task();
    assert_eq!(tm.current, Some(0));
    assert_eq!(tm.tasks[0].status, TaskStatus::Running);
}

#[test]
fn map_area_rejects_overlap_and_overflow() {
    let mut s = space();
    assert!(!s.map_area(MapArea { start: RW_BASE + 15, data: vec![0u8; 2], readable: true, writable: true }));
    assert!(!s.map_area(MapArea { start: RO_BASE - 1, data: vec![0u8; 2], readable: true, writable: true }));
    assert!(!s.map_area(MapArea { start: usize::MAX - 1, data: vec![0u8; 2], readable: true, writable: true }));
    assert_eq!(s.areas.len(), 3);
    assert!(s.map_area(MapArea { start: RW_BASE + 16, data: vec![1u8; 1], readable: true, writable: false }));
    assert_eq!(s.read_byte(RW_BASE + 16), Some(1));
    assert!(!s.write_byte(RW_BASE + 16, 2));
    assert!(s.write_byte(RW_BASE + 1, 2));
    assert_eq!(s.read_byte(RW_BASE + 1), Some(2));
}

#[test]
fn find_ready_round_robin_order() {
    let mut tm = manager(4);
    assert_eq!(tm.find_ready_from(0), Some(1));
    assert_eq!(tm.find_ready_from(2), Some(2));
    assert_eq!(tm.find_ready_from(4), Some(1));
    tm.tasks[3].status = TaskStatus::Exited;
    tm.tasks[3].exit_code = Some(0);
    assert_eq!(tm.find_ready_from(3), Some(1));
}
