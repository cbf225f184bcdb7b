//! The master: heartbeats, injected tasks, the scheduling step, pruning of
//! silent workers, and tasks made from intercepted local processes.
use vstd::prelude::*;
use vstd::multiset::Multiset;
use crate::protocol::{HeartbeatResponse, TaskRequest, TaskResponse};
use crate::queue::{pending_batches, pending_commands, take_next, task_bounded, TaskQueue,
    lemma_take_next_conserves, lemma_pending_push_front, lemma_pending_push_back,
    lemma_take_next_keeps_commands, lemma_commands_push_front, lemma_commands_push_back};
use crate::registry::{best_worker, has_id, upserted, WorkerRegistry, WorkerState, WorkerView,
    EntryView, reaped, stale_ids};
use crate::task::{initial_tasks, initial_task_views, rescue_view, single_batch_view,
    client_task_id, thief_task_id, TarefaPendente, TaskView};
use crate::text::{contains_text, lowercase, occurs_in, to_lowercase};

verus! {

/// The port assumed for a worker that reports port 0.
pub const DEFAULT_WORKER_PORT: u32 = 50052;

/// The address recorded for a worker whose address is unknown or the IPv6
/// loopback.
pub open spec fn loopback() -> Seq<char> {
    "127.0.0.1"@
}

/// The address recorded for a heartbeat that came from `peer`.
pub open spec fn normalized_peer(peer: Option<Seq<char>>) -> Seq<char> {
    match peer {
        None => loopback(),
        Some(a) => if a == "::1"@ {
            loopback()
        } else {
            a
        },
    }
}

/// The port recorded for a worker that reports `reported`.
pub open spec fn effective_port(reported: u32) -> u32 {
    if reported == 0 {
        DEFAULT_WORKER_PORT
    } else {
        reported
    }
}

/// The text with which the master acknowledges an injected task.
pub open spec fn inject_ack() -> Seq<char> {
    "Tarefa enfileirada no Master com sucesso!\n"@
}

/// The names of local processes that the master takes over when it is busy.
pub open spec fn thief_targets() -> Seq<Seq<char>> {
    seq!["silverbench"@, "stress"@, "ffmpeg"@, "openssl"@]
}

/// A lower-case process name contains one of the target names.
pub open spec fn is_thief_target(lower: Seq<char>) -> bool {
    exists|i: int| 0 <= i < thief_targets().len() && occurs_in(#[trigger] thief_targets()[i], lower)
}

/// The names the process thief looks for are exactly `silverbench`,
/// `stress`, `ffmpeg` and `openssl`.
pub proof fn lemma_thief_targets(lower: Seq<char>)
    ensures
        is_thief_target(lower) <==> (occurs_in("silverbench"@, lower) || occurs_in("stress"@, lower)
            || occurs_in("ffmpeg"@, lower) || occurs_in("openssl"@, lower)),
{
    let t = thief_targets();
    assert(t[0] == "silverbench"@);
    assert(t[1] == "stress"@);
    assert(t[2] == "ffmpeg"@);
    assert(t[3] == "openssl"@);
    if is_thief_target(lower) {
        let i = choose|i: int| 0 <= i < t.len() && occurs_in(#[trigger] t[i], lower);
        assert(i == 0 || i == 1 || i == 2 || i == 3);
    }
}

/// The queue after one scheduling step with workers `ws`: the sub-batch
/// taken goes back to the front when no worker can take it.
pub open spec fn scheduled_queue(q: Seq<TaskView>, ws: Seq<EntryView>) -> Seq<TaskView> {
    match take_next(q).1 {
        Some(b) => if best_worker(ws) is None {
            seq![rescue_view(b.0, b.1)] + take_next(q).0
        } else {
            take_next(q).0
        },
        None => take_next(q).0,
    }
}

/// One scheduling step with workers `ws` hands a sub-batch to a worker.
pub open spec fn dispatches(q: Seq<TaskView>, ws: Seq<EntryView>) -> bool {
    take_next(q).1 is Some && best_worker(ws) is Some
}

/// A scheduling step loses no sub-batch: when no worker can take it, the
/// sub-batch stays pending; when a worker takes it, it is the only one that
/// leaves the queue.
pub proof fn lemma_schedule_conserves(q: Seq<TaskView>, ws: Seq<EntryView>)
    ensures
        pending_batches(scheduled_queue(q, ws)) + (if dispatches(q, ws) { 1int } else { 0int })
            == pending_batches(q),
{
    lemma_take_next_conserves(q);
    if let Some(b) = take_next(q).1 {
        if best_worker(ws) is None {
            lemma_pending_push_front(rescue_view(b.0, b.1), take_next(q).0);
        }
    }
}

/// A scheduling step neither loses nor duplicates a command: when a worker
/// takes one, the pending commands with it are those pending before; else
/// the pending commands are unchanged.
pub proof fn lemma_schedule_keeps_commands(q: Seq<TaskView>, ws: Seq<EntryView>)
    ensures
        if dispatches(q, ws) {
            pending_commands(scheduled_queue(q, ws)).insert(taken_command(q)) == pending_commands(q)
        } else {
            pending_commands(scheduled_queue(q, ws)) == pending_commands(q)
        },
{
    lemma_take_next_keeps_commands(q);
    if let Some(b) = take_next(q).1 {
        if best_worker(ws) is None {
            let r = rescue_view(b.0, b.1);
            lemma_commands_push_front(r, take_next(q).0);
            assert(r.sub_lotes.to_multiset() =~= Multiset::<Seq<char>>::empty().insert(b.1)) by {
                Seq::<Seq<char>>::empty().to_multiset_ensures();
                assert(seq![b.1] =~= Seq::<Seq<char>>::empty().push(b.1));
            }
            assert(pending_commands(scheduled_queue(q, ws)) =~= pending_commands(q));
        }
    }
}

/// A sub-batch whose dispatch failed goes back to the queue with its
/// command: after a dispatching step and the failure, the pending commands
/// are those pending before the step.
pub proof fn lemma_failed_dispatch_restores_commands(q: Seq<TaskView>, ws: Seq<EntryView>)
    requires
        dispatches(q, ws),
    ensures
        pending_commands(scheduled_queue(q, ws).push(taken_rescue(q))) == pending_commands(q),
{
    lemma_schedule_keeps_commands(q, ws);
    let b = take_next(q).1->0;
    lemma_commands_push_back(scheduled_queue(q, ws), taken_rescue(q));
    assert(taken_rescue(q).sub_lotes.to_multiset() =~= Multiset::<Seq<char>>::empty().insert(b.1)) by {
        Seq::<Seq<char>>::empty().to_multiset_ensures();
        assert(seq![b.1] =~= Seq::<Seq<char>>::empty().push(b.1));
    }
    assert(pending_commands(scheduled_queue(q, ws).push(taken_rescue(q))) =~= pending_commands(q));
}

/// A sub-batch whose dispatch failed goes back to the queue: after a
/// dispatching step and the failure, as many sub-batches are pending as
/// before the step.
pub proof fn lemma_failed_dispatch_restores(q: Seq<TaskView>, ws: Seq<EntryView>)
    requires
        dispatches(q, ws),
    ensures
        pending_batches(scheduled_queue(q, ws).push(taken_rescue(q))) == pending_batches(q),
{
    lemma_schedule_conserves(q, ws);
    lemma_pending_push_back(scheduled_queue(q, ws), taken_rescue(q));
}

/// The command of the sub-batch a scheduling step takes from `q`.
pub open spec fn taken_command(q: Seq<TaskView>) -> Seq<char> {
    let (id, command) = take_next(q).1->0;
    command
}

/// The task that returns the sub-batch a scheduling step takes from `q`.
pub open spec fn taken_rescue(q: Seq<TaskView>) -> TaskView {
    let (id, command) = take_next(q).1->0;
    rescue_view(id, command)
}

/// A sub-batch handed to a worker, with where to send it.
pub struct Dispatch {
    pub worker_id: String,
    pub worker_ip: String,
    pub worker_port: u32,
    pub capacidade: u32,
    pub task_id: String,
    pub command: String,
}

/// What a scheduling step decided.
pub enum SchedulerAction {
    /// Nothing was taken from the queue.
    Idle,
    /// A sub-batch was taken but no worker can run it; it went back to the
    /// front of the queue.
    Requeued,
    /// A sub-batch is to be sent to a worker.
    Dispatch(Dispatch),
}

/// The address to record for a heartbeat that came from `peer`.
pub fn normalize_peer_address(peer: Option<String>) -> (addr: String)
    ensures
        addr@ == normalized_peer(
            match peer {
                Some(a) => Some(a@),
                None => None,
            },
        ),
{
    match peer {
        None => String::from_str("127.0.0.1"),
        Some(a) => {
            if a == String::from_str("::1") {
                String::from_str("127.0.0.1")
            } else {
                a
            }
        },
    }
}

/// The port to record for a worker that reports `reported`.
pub fn worker_port_or_default(reported: u32) -> (port: u32)
    ensures
        port == effective_port(reported),
{
    if reported == 0 {
        DEFAULT_WORKER_PORT
    } else {
        reported
    }
}

/// The lower-cased name of a local process when it contains one of the
/// target names, else `None`.
pub fn process_thief_match(name: &str) -> (m: Option<String>)
    ensures
        match m {
            Some(lower) => lower@ == lowercase(name@) && is_thief_target(lower@),
            None => !is_thief_target(lowercase(name@)),
        },
        m is Some <==> (occurs_in("silverbench"@, lowercase(name@)) || occurs_in(
            "stress"@,
            lowercase(name@),
        ) || occurs_in("ffmpeg"@, lowercase(name@)) || occurs_in("openssl"@, lowercase(name@))),
{
    proof {
        lemma_thief_targets(lowercase(name@));
    }
    let lower = to_lowercase(name);
    let ghost t = thief_targets();
    if contains_text(lower.as_str(), "silverbench") {
        assert(occurs_in(t[0], lower@));
        return Some(lower);
    }
    if contains_text(lower.as_str(), "stress") {
        assert(occurs_in(t[1], lower@));
        return Some(lower);
    }
    if contains_text(lower.as_str(), "ffmpeg") {
        assert(occurs_in(t[2], lower@));
        return Some(lower);
    }
    if contains_text(lower.as_str(), "openssl") {
        assert(occurs_in(t[3], lower@));
        return Some(lower);
    }
    assert forall|i: int| 0 <= i < t.len() implies !occurs_in(#[trigger] t[i], lower@) by {
        if i == 0 {
        } else if i == 1 {
        } else if i == 2 {
        } else {
        }
    }
    None
}

/// The master's state: its workers and its pending tasks.
pub struct AetherMaster {
    pub workers: WorkerRegistry,
    pub fila_tarefas: TaskQueue,
}

impl AetherMaster {
    /// The registry's ids are unique and every queued task is bounded.
    pub open spec fn wf(&self) -> bool {
        self.workers.wf() && self.fila_tarefas.wf()
    }

    /// A master with no workers and no tasks.
    pub fn new() -> (m: AetherMaster)
        ensures
            m.wf(),
            m.workers@ == Seq::<EntryView>::empty(),
            m.fila_tarefas@ == Seq::<TaskView>::empty(),
    {
        AetherMaster { workers: WorkerRegistry::new(), fila_tarefas: TaskQueue::new() }
    }

    /// Records a heartbeat of worker `worker_id`, reported from `peer` with
    /// port `worker_port` and capacity key `capacidade`, at `now_ms`.
    /// A worker reporting for the first time gets the initial tasks queued.
    /// Answers the acknowledgement and whether the worker was new.
    pub fn send_heartbeat(
        &mut self,
        worker_id: String,
        peer: Option<String>,
        worker_port: u32,
        capacidade: u32,
        now_ms: u64,
    ) -> (out: (HeartbeatResponse, bool))
        requires
            old(self).wf(),
        ensures
            final(self).wf(),
            out.0.acknowledged,
            out.1 == !has_id(old(self).workers@, worker_id@),
            final(self).workers@ == upserted(
                old(self).workers@,
                worker_id@,
                WorkerView {
                    ip_address: normalized_peer(
                        match peer {
                            Some(a) => Some(a@),
                            None => None,
                        },
                    ),
                    port: effective_port(worker_port),
                    last_seen_ms: now_ms,
                    capacidade,
                },
            ),
            final(self).fila_tarefas@ == if out.1 {
                old(self).fila_tarefas@ + initial_task_views()
            } else {
                old(self).fila_tarefas@
            },
    {
        let state = WorkerState {
            ip_address: normalize_peer_address(peer),
            port: worker_port_or_default(worker_port),
            last_seen_ms: now_ms,
            capacidade,
        };
        let is_new = self.workers.upsert(worker_id, state);
        if is_new {
            let tasks = initial_tasks();
            assert(tasks@.map_values(|t: TarefaPendente| t@).len() == tasks@.len());
            assert(tasks@.len() == 2);
            assert forall|i: int| 0 <= i < tasks@.len() implies task_bounded(#[trigger] tasks@[i]@) by {
                assert(tasks@.map_values(|t: TarefaPendente| t@)[i] == tasks@[i]@);
                assert(tasks@[i]@ == initial_task_views()[i]);
                if i == 0 {
                    assert(initial_task_views()[0].sub_lotes.len() == 1);
                } else {
                    assert(initial_task_views()[1].sub_lotes.len() == 3);
                }
            }
            self.fila_tarefas.push_back_all(tasks);
        }
        (HeartbeatResponse { acknowledged: true }, is_new)
    }

    /// Queues a command injected from the command line as a task of one
    /// sub-batch, and acknowledges it.
    pub fn inject_task(&mut self, request: TaskRequest) -> (resp: TaskResponse)
        requires
            old(self).wf(),
        ensures
            final(self).wf(),
            final(self).workers@ == old(self).workers@,
            final(self).fila_tarefas@ == old(self).fila_tarefas@.push(
                single_batch_view(client_task_id(request.task_id@), request.command@, request.command@),
            ),
            resp.task_id@ == request.task_id@,
            resp.exit_code == 0,
            resp.stdout@ == inject_ack(),
            resp.stderr@ == Seq::<char>::empty(),
    {
        let tarefa = TarefaPendente::from_client(&request.task_id, &request.command);
        self.fila_tarefas.push_back(tarefa);
        TaskResponse {
            task_id: request.task_id,
            exit_code: 0,
            stdout: String::from_str("Tarefa enfileirada no Master com sucesso!\n"),
            stderr: String::new(),
        }
    }

    /// One scheduling step: takes one sub-batch from the queue and picks the
    /// schedulable worker with the highest capacity for it; when there is no
    /// such worker, the sub-batch goes back to the front of the queue.
    pub fn schedule_next(&mut self) -> (action: SchedulerAction)
        requires
            old(self).wf(),
        ensures
            final(self).wf(),
            final(self).workers@ == old(self).workers@,
            final(self).fila_tarefas@ == scheduled_queue(old(self).fila_tarefas@, old(self).workers@),
            match take_next(old(self).fila_tarefas@).1 {
                None => action is Idle,
                Some(b) => match best_worker(old(self).workers@) {
                    None => action is Requeued,
                    Some(i) => action matches SchedulerAction::Dispatch(d) && {
                        &&& d.worker_id@ == old(self).workers@[i].0
                        &&& d.worker_ip@ == old(self).workers@[i].1.ip_address
                        &&& d.worker_port == old(self).workers@[i].1.port
                        &&& d.capacidade == old(self).workers@[i].1.capacidade
                        &&& d.task_id@ == b.0
                        &&& d.command@ == b.1
                    },
                },
            },
    {
        match self.fila_tarefas.take_next_batch() {
            None => SchedulerAction::Idle,
            Some((task_id, command)) => {
                match self.workers.best() {
                    Some(i) => {
                        let (id, state) = self.workers.get(i);
                        SchedulerAction::Dispatch(
                            Dispatch {
                                worker_id: id.clone(),
                                worker_ip: state.ip_address.clone(),
                                worker_port: state.port,
                                capacidade: state.capacidade,
                                task_id,
                                command,
                            },
                        )
                    },
                    None => {
                        let tarefa = TarefaPendente::rescue(task_id, command);
                        self.fila_tarefas.push_front(tarefa);
                        SchedulerAction::Requeued
                    },
                }
            },
        }
    }

    /// Puts back at the end of the queue a sub-batch whose dispatch failed.
    pub fn dispatch_failed(&mut self, task_id: String, command: String)
        requires
            old(self).wf(),
        ensures
            final(self).wf(),
            final(self).workers@ == old(self).workers@,
            final(self).fila_tarefas@ == old(self).fila_tarefas@.push(rescue_view(task_id@, command@)),
    {
        let tarefa = TarefaPendente::rescue(task_id, command);
        self.fila_tarefas.push_back(tarefa);
    }

    /// Takes out the workers that have been silent too long at `now_ms`;
    /// answers their ids.
    pub fn reap_workers(&mut self, now_ms: u64) -> (removed: Vec<String>)
        requires
            old(self).wf(),
        ensures
            final(self).wf(),
            final(self).workers@ == reaped(old(self).workers@, now_ms),
            final(self).fila_tarefas@ == old(self).fila_tarefas@,
            removed.deep_view() == stale_ids(old(self).workers@, now_ms),
    {
        self.workers.reap(now_ms)
    }

    /// Queues the task made from an intercepted local process, with its
    /// lower-cased name and its process id.
    pub fn enqueue_stolen(&mut self, lower_name: &String, pid: &str)
        requires
            old(self).wf(),
        ensures
            final(self).wf(),
            final(self).workers@ == old(self).workers@,
            final(self).fila_tarefas@ == old(self).fila_tarefas@.push(
                single_batch_view(thief_task_id(lower_name@, pid@), lower_name@, lower_name@),
            ),
    {
        let tarefa = TarefaPendente::from_process(lower_name, pid);
        self.fila_tarefas.push_back(tarefa);
    }
}

impl Default for AetherMaster {
    fn default() -> (m: AetherMaster)
        ensures
            m.wf(),
            m.workers@ == Seq::<EntryView>::empty(),
            m.fila_tarefas@ == Seq::<TaskView>::empty(),
    {
        AetherMaster::new()
    }
}

} // verus!
