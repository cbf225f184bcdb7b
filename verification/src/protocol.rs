//! The messages that the master, the workers and the command line exchange.
use vstd::prelude::*;

verus! {

/// A command handed to the master (by the command line) or to a worker (by
/// the scheduler).
pub struct TaskRequest {
    pub task_id: String,
    pub command: String,
    pub payload: Vec<u8>,
}

/// One reply about a task: a line of its output, the final status, or the
/// master's acknowledgement of an injected task.
pub struct TaskResponse {
    pub task_id: String,
    pub exit_code: i32,
    pub stdout: String,
    pub stderr: String,
}

/// The master's answer to a heartbeat.
pub struct HeartbeatResponse {
    pub acknowledged: bool,
}

} // verus!
