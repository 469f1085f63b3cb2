//! Process-control system calls of a small teaching kernel: exit, yield,
//! time query and the diagnostic trace call, over a verified model of the
//! task manager and of each task's user address space.
pub mod memory;
pub mod process;
pub mod task;
