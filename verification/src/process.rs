//! The process registry's records.

use vstd::prelude::*;

verus! {

/// Where a process stands in its life. Nothing in the kernel moves a
/// process from one state to another: there is no scheduler.
#[derive(Clone, Copy, Debug, PartialEq, Eq)]
pub enum ProcessState {
    Ready,
    Running,
    Waiting,
    Terminated,
}

/// One entry of the process table.
#[derive(Clone, Copy, Debug, PartialEq, Eq)]
pub struct ProcessControlBlock {
    pub pid: u32,
    pub state: ProcessState,
    pub parent_pid: Option<u32>,
    pub exit_code: i32,
}

} // verus!
