//! The worker: the replies it streams while running a command, and what it
//! reports about itself.
use vstd::prelude::*;
use crate::protocol::TaskResponse;
use crate::text::{contains_text, join2, lowercase, occurs_in, to_lowercase, trim_text, trimmed};

verus! {

/// The text of the reply that closes a command's output.
pub open spec fn completion_text() -> Seq<char> {
    "[WORKER] --- Micro-lote finalizado ---\n"@
}

/// The start of the message with which a worker refuses a command it could
/// not launch.
pub open spec fn launch_failure_prefix() -> Seq<char> {
    "Falha ao lançar comando: "@
}

/// The identifier a worker uses when its host name cannot be read.
pub open spec fn unknown_worker_id() -> Seq<char> {
    "unknown_worker"@
}

/// How a launched command ended.
pub enum CommandExit {
    /// Waiting for the command failed.
    WaitFailed,
    /// The command exited with this code.
    Exited(i32),
    /// The command ended without an exit code (a signal ended it).
    NoCode,
}

/// The exit code reported for a command that ended as `e`.
pub open spec fn exit_code_of(e: CommandExit) -> int {
    match e {
        CommandExit::WaitFailed => -1,
        CommandExit::Exited(c) => c as int,
        CommandExit::NoCode => 0,
    }
}

/// The exit code reported is the command's own exit code when it has one,
/// 0 when a signal ended it, and -1 when waiting for it failed.
pub proof fn lemma_exit_code(c: i32)
    ensures
        exit_code_of(CommandExit::Exited(c)) == c,
        exit_code_of(CommandExit::NoCode) == 0,
        exit_code_of(CommandExit::WaitFailed) == -1,
{
}

/// A temperature sensor whose (lower-cased) label names the processor.
pub open spec fn is_processor_sensor(label: Seq<char>) -> bool {
    occurs_in("cpu"@, lowercase(label)) || occurs_in("core"@, lowercase(label))
}

/// A worker node. It keeps no state between commands.
pub struct AetherWorker {}

impl AetherWorker {
    /// A worker.
    pub fn new() -> (w: AetherWorker)
        ensures
            w == (AetherWorker {}),
    {
        AetherWorker {}
    }

    /// The reply that carries one line of a command's standard output.
    pub fn output_response(&self, task_id: &String, line: &str) -> (r: TaskResponse)
        ensures
            r.task_id@ == task_id@,
            r.exit_code == 0,
            r.stdout@ == line@ + "\n"@,
            r.stderr@ == Seq::<char>::empty(),
    {
        TaskResponse {
            task_id: task_id.clone(),
            exit_code: 0,
            stdout: join2(line, "\n"),
            stderr: String::new(),
        }
    }

    /// The reply that closes a command's output, with its exit code.
    pub fn completion_response(&self, task_id: String, exit: CommandExit) -> (r: TaskResponse)
        ensures
            r.task_id@ == task_id@,
            r.exit_code == exit_code_of(exit),
            exit matches CommandExit::Exited(c) ==> r.exit_code == c,
            exit is NoCode ==> r.exit_code == 0,
            exit is WaitFailed ==> r.exit_code == -1,
            r.stdout@ == completion_text(),
            r.stderr@ == Seq::<char>::empty(),
    {
        let exit_code = match exit {
            CommandExit::WaitFailed => -1,
            CommandExit::Exited(c) => c,
            CommandExit::NoCode => 0,
        };
        TaskResponse {
            task_id,
            exit_code,
            stdout: String::from_str("[WORKER] --- Micro-lote finalizado ---\n"),
            stderr: String::new(),
        }
    }

    /// The message with which the worker refuses a command that could not be
    /// launched, given the launch error's text.
    pub fn launch_failure_message(&self, error: &str) -> (m: String)
        ensures
            m@ == launch_failure_prefix() + error@,
    {
        join2("Falha ao lançar comando: ", error)
    }
}

impl Default for AetherWorker {
    fn default() -> (w: AetherWorker)
        ensures
            w == (AetherWorker {}),
    {
        AetherWorker {}
    }
}

/// The sensor whose temperature a worker reports: the first whose label
/// names the processor.
pub fn processor_sensor(labels: &Vec<String>) -> (k: Option<usize>)
    ensures
        match k {
            Some(i) => i < labels@.len() && is_processor_sensor(labels@[i as int]@) && forall|j: int|
                0 <= j < i ==> !is_processor_sensor(#[trigger] labels@[j]@),
            None => forall|j: int| 0 <= j < labels@.len() ==> !is_processor_sensor(#[trigger] labels@[j]@),
        },
{
    let mut i: usize = 0;
    while i < labels.len()
        invariant
            i <= labels@.len(),
            forall|j: int| 0 <= j < i ==> !is_processor_sensor(#[trigger] labels@[j]@),
        decreases labels.len() - i,
    {
        let lower = to_lowercase(labels[i].as_str());
        if contains_text(lower.as_str(), "cpu") || contains_text(lower.as_str(), "core") {
            return Some(i);
        }
        i = i + 1;
    }
    None
}

/// The identifier a worker reports: its host name file's contents without
/// surrounding white space, or `unknown_worker` when the file could not be read.
pub fn worker_id_from_hostname(contents: Option<String>) -> (id: String)
    ensures
        id@ == trimmed(
            match contents {
                Some(c) => c@,
                None => unknown_worker_id(),
            },
        ),
{
    let raw = match contents {
        Some(c) => c,
        None => String::from_str("unknown_worker"),
    };
    String::from_str(trim_text(raw.as_str()))
}

/// The port a worker serves tasks on: the one after the master's.
pub fn worker_listen_port(master_port: u16) -> (p: u16)
    requires
        master_port < u16::MAX,
    ensures
        p == master_port + 1,
{
    master_port + 1
}

} // verus!
