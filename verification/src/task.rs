//! Pending tasks, each made of sub-batches that run one after another.
use vstd::prelude::*;
use crate::text::join2;

verus! {

/// A task waiting in the master's queue: the commands still to run
/// (`sub_lotes`) and how many of its sub-batches have been handed out.
pub struct TarefaPendente {
    pub id: String,
    pub comando_base: String,
    pub sub_lotes: Vec<String>,
    pub lotes_concluidos: usize,
}

/// The mathematical value of a pending task.
pub struct TaskView {
    pub id: Seq<char>,
    pub comando_base: Seq<char>,
    pub sub_lotes: Seq<Seq<char>>,
    pub lotes_concluidos: nat,
}

impl View for TarefaPendente {
    type V = TaskView;

    open spec fn view(&self) -> TaskView {
        TaskView {
            id: self.id@,
            comando_base: self.comando_base@,
            sub_lotes: self.sub_lotes.deep_view(),
            lotes_concluidos: self.lotes_concluidos as nat,
        }
    }
}

/// A task of one sub-batch that nothing has run yet.
pub open spec fn single_batch_view(id: Seq<char>, base: Seq<char>, command: Seq<char>) -> TaskView {
    TaskView { id, comando_base: base, sub_lotes: seq![command], lotes_concluidos: 0 }
}

/// The base command recorded on a sub-batch that goes back to the queue.
pub open spec fn rescue_base() -> Seq<char> {
    "resgate"@
}

/// The task that puts one sub-batch of task `id` back in the queue.
pub open spec fn rescue_view(id: Seq<char>, command: Seq<char>) -> TaskView {
    single_batch_view(id, rescue_base(), command)
}

/// The tasks queued when a worker first reports: a system probe, then a
/// computation split into three sub-batches.
pub open spec fn initial_task_views() -> Seq<TaskView> {
    seq![
        single_batch_view("task_01_sysinfo"@, "uname -a && uptime"@, "uname -a && uptime"@),
        TaskView {
            id: "task_02_heavy_math"@,
            comando_base: "pipeline_matematico"@,
            sub_lotes: seq![
                "echo 'Lote 1/3' && seq 1 2 | while read i; do echo \"Sub-lote A - Item $i\"; sleep 1; done"@,
                "echo 'Lote 2/3' && seq 3 4 | while read i; do echo \"Sub-lote B - Item $i\"; sleep 1; done"@,
                "echo 'Lote 3/3' && seq 5 5 | while read i; do echo \"Sub-lote C - Item $i\"; sleep 1; done"@,
            ],
            lotes_concluidos: 0,
        },
    ]
}

/// The identifier of a task injected from the command line with id `task_id`.
pub open spec fn client_task_id(task_id: Seq<char>) -> Seq<char> {
    "client_"@ + task_id
}

/// The identifier of a task made from an intercepted local process.
pub open spec fn thief_task_id(name: Seq<char>, pid: Seq<char>) -> Seq<char> {
    "thief_"@ + name + "_"@ + pid
}

impl TarefaPendente {
    /// A task with one sub-batch, `command`, and nothing run yet.
    pub fn single_batch(id: String, comando_base: String, command: String) -> (t: TarefaPendente)
        ensures
            t@ == single_batch_view(id@, comando_base@, command@),
    {
        let mut sub_lotes: Vec<String> = Vec::new();
        sub_lotes.push(command);
        let t = TarefaPendente { id, comando_base, sub_lotes, lotes_concluidos: 0 };
        assert(t@.sub_lotes =~= seq![command@]);
        t
    }

    /// The task that returns one sub-batch of task `id` to the queue.
    pub fn rescue(id: String, command: String) -> (t: TarefaPendente)
        ensures
            t@ == rescue_view(id@, command@),
    {
        Self::single_batch(id, String::from_str("resgate"), command)
    }

    /// The task queued for a command injected from the command line.
    pub fn from_client(task_id: &String, command: &String) -> (t: TarefaPendente)
        ensures
            t@ == single_batch_view(client_task_id(task_id@), command@, command@),
    {
        let id = join2("client_", task_id.as_str());
        Self::single_batch(id, command.clone(), command.clone())
    }

    /// The task made from an intercepted local process `name` (lower case)
    /// with process id `pid`: the process's name is its only command.
    pub fn from_process(name: &String, pid: &str) -> (t: TarefaPendente)
        ensures
            t@ == single_batch_view(thief_task_id(name@, pid@), name@, name@),
    {
        let a = join2("thief_", name.as_str());
        let b = join2(a.as_str(), "_");
        let id = join2(b.as_str(), pid);
        Self::single_batch(id, name.clone(), name.clone())
    }
}

/// The tasks queued when a new worker registers, in queue order.
pub fn initial_tasks() -> (tasks: Vec<TarefaPendente>)
    ensures
        tasks@.map_values(|t: TarefaPendente| t@) == initial_task_views(),
{
    let mut tasks: Vec<TarefaPendente> = Vec::new();
    tasks.push(
        TarefaPendente::single_batch(
            String::from_str("task_01_sysinfo"),
            String::from_str("uname -a && uptime"),
            String::from_str("uname -a && uptime"),
        ),
    );
    let mut lotes: Vec<String> = Vec::new();
    lotes.push(
        String::from_str(
            "echo 'Lote 1/3' && seq 1 2 | while read i; do echo \"Sub-lote A - Item $i\"; sleep 1; done",
        ),
    );
    lotes.push(
        String::from_str(
            "echo 'Lote 2/3' && seq 3 4 | while read i; do echo \"Sub-lote B - Item $i\"; sleep 1; done",
        ),
    );
    lotes.push(
        String::from_str(
            "echo 'Lote 3/3' && seq 5 5 | while read i; do echo \"Sub-lote C - Item $i\"; sleep 1; done",
        ),
    );
    let heavy = TarefaPendente {
        id: String::from_str("task_02_heavy_math"),
        comando_base: String::from_str("pipeline_matematico"),
        sub_lotes: lotes,
        lotes_concluidos: 0,
    };
    assert(heavy@.sub_lotes =~= initial_task_views()[1].sub_lotes);
    tasks.push(heavy);
    assert(tasks@.map_values(|t: TarefaPendente| t@) =~= initial_task_views());
    tasks
}

} // verus!
