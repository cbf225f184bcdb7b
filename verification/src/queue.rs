//! The master's queue of pending tasks and the step that takes one
//! sub-batch out of it.
use vstd::prelude::*;
use vstd::multiset::Multiset;
use std::collections::VecDeque;
use crate::task::{TarefaPendente, TaskView};

verus! {

/// A task can still count every sub-batch it will hand out: the sub-batches
/// already handed out and those still pending fit in a `usize`.
pub open spec fn task_bounded(t: TaskView) -> bool {
    t.lotes_concluidos + t.sub_lotes.len() <= usize::MAX
}

/// Every task of the queue is bounded.
pub open spec fn queue_bounded(q: Seq<TaskView>) -> bool {
    forall|i: int| 0 <= i < q.len() ==> task_bounded(#[trigger] q[i])
}

/// How many sub-batches wait in the queue, over all its tasks.
pub open spec fn pending_batches(q: Seq<TaskView>) -> nat
    decreases q.len(),
{
    if q.len() == 0 {
        0
    } else {
        pending_batches(q.drop_last()) + q.last().sub_lotes.len()
    }
}

/// The commands waiting in the queue, over all its tasks, counted with
/// multiplicity.
pub open spec fn pending_commands(q: Seq<TaskView>) -> Multiset<Seq<char>>
    decreases q.len(),
{
    if q.len() == 0 {
        Multiset::empty()
    } else {
        pending_commands(q.drop_last()).add(q.last().sub_lotes.to_multiset())
    }
}

/// The front task once its first sub-batch has been handed out.
pub open spec fn advanced(t: TaskView) -> TaskView {
    TaskView {
        id: t.id,
        comando_base: t.comando_base,
        sub_lotes: t.sub_lotes.drop_first(),
        lotes_concluidos: t.lotes_concluidos + 1,
    }
}

/// One scheduling step on a queue: the queue afterwards and the sub-batch
/// taken, as (task id, command).
///
/// The front task leaves the queue. If it has sub-batches, the first one is
/// taken and the task, one sub-batch further, goes to the back of the queue
/// when it still has some. A front task without sub-batches is dropped and
/// nothing is taken.
pub open spec fn take_next(q: Seq<TaskView>) -> (Seq<TaskView>, Option<(Seq<char>, Seq<char>)>) {
    if q.len() == 0 {
        (q, None)
    } else if q[0].sub_lotes.len() == 0 {
        (q.drop_first(), None)
    } else if q[0].sub_lotes.len() == 1 {
        (q.drop_first(), Some((q[0].id, q[0].sub_lotes[0])))
    } else {
        (q.drop_first().push(advanced(q[0])), Some((q[0].id, q[0].sub_lotes[0])))
    }
}

/// A scheduling step serves the queue in order. On an empty queue it does
/// nothing. Otherwise the tasks behind the front keep their order at the
/// front of the new queue; a front task with at most one sub-batch leaves the
/// queue; a front task with more goes to the back without its first
/// sub-batch, one more handed out; and what is taken, exactly when the front
/// task has a sub-batch, is the front task's id with its first command.
pub proof fn lemma_take_next_fifo(q: Seq<TaskView>)
    ensures
        q.len() == 0 ==> take_next(q).0 == q && take_next(q).1 is None,
        q.len() > 0 ==> take_next(q).0.len() >= q.len() - 1 && take_next(q).0.subrange(
            0,
            q.len() - 1,
        ) == q.subrange(1, q.len() as int),
        q.len() > 0 && q[0].sub_lotes.len() <= 1 ==> take_next(q).0 == q.subrange(
            1,
            q.len() as int,
        ),
        q.len() > 0 && q[0].sub_lotes.len() > 1 ==> take_next(q).0.len() == q.len()
            && take_next(q).0[q.len() - 1] == (TaskView {
            id: q[0].id,
            comando_base: q[0].comando_base,
            sub_lotes: q[0].sub_lotes.subrange(1, q[0].sub_lotes.len() as int),
            lotes_concluidos: q[0].lotes_concluidos + 1,
        }),
        take_next(q).1 is Some <==> (q.len() > 0 && q[0].sub_lotes.len() > 0),
        take_next(q).1 is Some ==> take_next(q).1 == Some((q[0].id, q[0].sub_lotes[0])),
{
    if q.len() > 0 {
        let r = take_next(q).0;
        assert(r.subrange(0, q.len() - 1) =~= q.subrange(1, q.len() as int));
        if q[0].sub_lotes.len() <= 1 {
            assert(r =~= q.subrange(1, q.len() as int));
        }
    }
}

/// The pending count of a non-empty queue splits into its front task and the rest.
pub proof fn lemma_pending_front(q: Seq<TaskView>)
    requires
        q.len() > 0,
    ensures
        pending_batches(q) == q[0].sub_lotes.len() + pending_batches(q.drop_first()),
    decreases q.len(),
{
    if q.len() > 1 {
        lemma_pending_front(q.drop_last());
        assert(q.drop_last().drop_first() =~= q.drop_first().drop_last());
        assert(q.drop_first().last() == q.last());
        assert(q.drop_last()[0] == q[0]);
        assert(pending_batches(q) == pending_batches(q.drop_last()) + q.last().sub_lotes.len());
        assert(pending_batches(q.drop_first()) == pending_batches(q.drop_first().drop_last())
            + q.drop_first().last().sub_lotes.len());
    } else {
        assert(q.drop_first().len() == 0);
        assert(q.drop_last().len() == 0);
        assert(q.last() == q[0]);
        assert(pending_batches(q.drop_last()) == 0);
        assert(pending_batches(q.drop_first()) == 0);
    }
}

/// Putting a task at the front adds its sub-batches to the pending count.
pub proof fn lemma_pending_push_front(t: TaskView, q: Seq<TaskView>)
    ensures
        pending_batches(seq![t] + q) == t.sub_lotes.len() + pending_batches(q),
{
    lemma_pending_front(seq![t] + q);
    assert((seq![t] + q).drop_first() =~= q);
}

/// Putting a task at the back adds its sub-batches to the pending count.
pub proof fn lemma_pending_push_back(q: Seq<TaskView>, t: TaskView)
    ensures
        pending_batches(q.push(t)) == pending_batches(q) + t.sub_lotes.len(),
{
    assert(q.push(t).drop_last() =~= q);
}

/// A scheduling step loses no sub-batch: what stays pending plus what was
/// taken is what was pending before.
pub proof fn lemma_take_next_conserves(q: Seq<TaskView>)
    ensures
        pending_batches(take_next(q).0) + (if take_next(q).1 is Some { 1int } else { 0int })
            == pending_batches(q),
{
    if q.len() > 0 {
        lemma_pending_front(q);
        if q[0].sub_lotes.len() > 1 {
            lemma_pending_push_back(q.drop_first(), advanced(q[0]));
        }
    }
}

/// The pending commands of a non-empty queue split into its front task's and
/// the rest's.
pub proof fn lemma_commands_front(q: Seq<TaskView>)
    requires
        q.len() > 0,
    ensures
        pending_commands(q) == q[0].sub_lotes.to_multiset().add(pending_commands(q.drop_first())),
    decreases q.len(),
{
    if q.len() > 1 {
        lemma_commands_front(q.drop_last());
        assert(q.drop_last().drop_first() =~= q.drop_first().drop_last());
        assert(q.drop_first().last() == q.last());
        assert(q.drop_last()[0] == q[0]);
        assert(pending_commands(q) == pending_commands(q.drop_last()).add(
            q.last().sub_lotes.to_multiset(),
        ));
        assert(pending_commands(q.drop_first()) == pending_commands(q.drop_first().drop_last()).add(
            q.drop_first().last().sub_lotes.to_multiset(),
        ));
        assert(pending_commands(q) =~= q[0].sub_lotes.to_multiset().add(
            pending_commands(q.drop_first()),
        ));
    } else {
        assert(q.drop_first().len() == 0);
        assert(q.drop_last().len() == 0);
        assert(q.last() == q[0]);
        assert(pending_commands(q.drop_last()) == Multiset::<Seq<char>>::empty());
        assert(pending_commands(q.drop_first()) == Multiset::<Seq<char>>::empty());
        assert(pending_commands(q) =~= q[0].sub_lotes.to_multiset().add(
            pending_commands(q.drop_first()),
        ));
    }
}

/// Putting a task at the front adds its commands to the pending ones.
pub proof fn lemma_commands_push_front(t: TaskView, q: Seq<TaskView>)
    ensures
        pending_commands(seq![t] + q) == t.sub_lotes.to_multiset().add(pending_commands(q)),
{
    lemma_commands_front(seq![t] + q);
    assert((seq![t] + q).drop_first() =~= q);
}

/// Putting a task at the back adds its commands to the pending ones.
pub proof fn lemma_commands_push_back(q: Seq<TaskView>, t: TaskView)
    ensures
        pending_commands(q.push(t)) == pending_commands(q).add(t.sub_lotes.to_multiset()),
{
    assert(q.push(t).drop_last() =~= q);
}

/// The commands of a task without its first sub-batch are its commands less
/// that one.
pub proof fn lemma_commands_drop_first(s: Seq<Seq<char>>)
    requires
        s.len() > 0,
    ensures
        s.to_multiset() == s.drop_first().to_multiset().insert(s[0]),
{
    s.to_multiset_ensures();
    assert(s.remove(0) =~= s.drop_first());
    assert(s.to_multiset().count(s[0]) > 0);
    assert(s.drop_first().to_multiset().insert(s[0]) =~= s.to_multiset());
}

/// A scheduling step neither loses nor duplicates a command: the pending
/// commands afterwards, with the one taken, are those pending before.
pub proof fn lemma_take_next_keeps_commands(q: Seq<TaskView>)
    ensures
        match take_next(q).1 {
            Some(b) => pending_commands(take_next(q).0).insert(b.1) == pending_commands(q),
            None => pending_commands(take_next(q).0) == pending_commands(q),
        },
{
    if q.len() > 0 {
        lemma_commands_front(q);
        let t = q[0];
        let rest = q.drop_first();
        if t.sub_lotes.len() == 0 {
            t.sub_lotes.to_multiset_ensures();
            assert(t.sub_lotes.to_multiset() =~= Multiset::<Seq<char>>::empty());
            assert(pending_commands(q) =~= pending_commands(rest));
        } else {
            lemma_commands_drop_first(t.sub_lotes);
            if t.sub_lotes.len() == 1 {
                t.sub_lotes.drop_first().to_multiset_ensures();
                assert(t.sub_lotes.drop_first().to_multiset() =~= Multiset::<Seq<char>>::empty());
                assert(pending_commands(rest).insert(t.sub_lotes[0]) =~= pending_commands(q));
            } else {
                lemma_commands_push_back(rest, advanced(t));
                assert(pending_commands(rest.push(advanced(t))).insert(t.sub_lotes[0])
                    =~= pending_commands(q));
            }
        }
    }
}

/// A scheduling step keeps each task's total: the task that goes back has
/// handed out one more sub-batch and holds one fewer.
pub proof fn lemma_take_next_keeps_task_total(q: Seq<TaskView>)
    requires
        q.len() > 0,
        q[0].sub_lotes.len() > 1,
    ensures
        take_next(q).0.last() == advanced(q[0]),
        advanced(q[0]).lotes_concluidos + advanced(q[0]).sub_lotes.len()
            == q[0].lotes_concluidos + q[0].sub_lotes.len(),
{
}

/// A scheduling step on a queue whose tasks all have sub-batches takes one
/// whenever the queue is not empty.
pub proof fn lemma_take_next_progress(q: Seq<TaskView>)
    requires
        forall|i: int| 0 <= i < q.len() ==> (#[trigger] q[i]).sub_lotes.len() > 0,
    ensures
        take_next(q).1 is Some <==> q.len() > 0,
{
    if q.len() > 0 {
        assert(q[0].sub_lotes.len() > 0);
    }
}

/// The queue after `k` scheduling steps.
pub open spec fn after_steps(q: Seq<TaskView>, k: nat) -> Seq<TaskView>
    decreases k,
{
    if k == 0 {
        q
    } else {
        take_next(after_steps(q, (k - 1) as nat)).0
    }
}

/// A task alone in the queue hands out its sub-batches in their order: the
/// step after `k` steps takes its sub-batch `k`, and meanwhile the task has
/// handed out `k` and keeps the rest.
pub proof fn lemma_sub_batches_in_order(t: TaskView, k: nat)
    requires
        k < t.sub_lotes.len(),
    ensures
        after_steps(seq![t], k) == seq![
            TaskView {
                id: t.id,
                comando_base: t.comando_base,
                sub_lotes: t.sub_lotes.skip(k as int),
                lotes_concluidos: t.lotes_concluidos + k,
            },
        ],
        take_next(after_steps(seq![t], k)).1 == Some((t.id, t.sub_lotes[k as int])),
    decreases k,
{
    if k > 0 {
        lemma_sub_batches_in_order(t, (k - 1) as nat);
        let prev = after_steps(seq![t], (k - 1) as nat);
        let pt = prev[0];
        assert(pt.sub_lotes.len() > 1);
        assert(prev.drop_first() =~= Seq::<TaskView>::empty());
        assert(pt.sub_lotes.drop_first() =~= t.sub_lotes.skip(k as int));
        assert(take_next(prev).0 =~= seq![advanced(pt)]);
    } else {
        assert(t.sub_lotes.skip(0) =~= t.sub_lotes);
    }
    let cur = after_steps(seq![t], k);
    assert(cur[0].sub_lotes[0] == t.sub_lotes[k as int]);
}

/// The tasks waiting for workers, in the order they will be served.
pub struct TaskQueue {
    tarefas: VecDeque<TarefaPendente>,
}

impl View for TaskQueue {
    type V = Seq<TaskView>;

    closed spec fn view(&self) -> Seq<TaskView> {
        self.tarefas@.map_values(|t: TarefaPendente| t@)
    }
}

impl TaskQueue {
    /// Every queued task is bounded.
    pub open spec fn wf(&self) -> bool {
        queue_bounded(self@)
    }

    /// An empty queue.
    pub fn new() -> (q: TaskQueue)
        ensures
            q@ == Seq::<TaskView>::empty(),
            q.wf(),
    {
        let q = TaskQueue { tarefas: VecDeque::new() };
        assert(q@ =~= Seq::<TaskView>::empty());
        q
    }

    /// How many tasks wait.
    pub fn len(&self) -> (n: usize)
        ensures
            n == self@.len(),
    {
        self.tarefas.len()
    }

    /// The task at position `i` (0 is the front).
    pub fn get(&self, i: usize) -> (t: &TarefaPendente)
        requires
            i < self@.len(),
        ensures
            t@ == self@[i as int],
    {
        &self.tarefas[i]
    }

    /// Puts a task at the back of the queue.
    pub fn push_back(&mut self, t: TarefaPendente)
        requires
            old(self).wf(),
            task_bounded(t@),
        ensures
            final(self)@ == old(self)@.push(t@),
            final(self).wf(),
    {
        let ghost v = t@;
        self.tarefas.push_back(t);
        assert(self@ =~= old(self)@.push(v));
    }

    /// Puts a task at the front of the queue.
    pub fn push_front(&mut self, t: TarefaPendente)
        requires
            old(self).wf(),
            task_bounded(t@),
        ensures
            final(self)@ == seq![t@] + old(self)@,
            final(self).wf(),
    {
        let ghost v = t@;
        self.tarefas.push_front(t);
        assert(self@ =~= seq![v] + old(self)@);
    }

    /// Puts tasks at the back of the queue, in their order.
    pub fn push_back_all(&mut self, tasks: Vec<TarefaPendente>)
        requires
            old(self).wf(),
            forall|i: int| 0 <= i < tasks@.len() ==> task_bounded(#[trigger] tasks@[i]@),
        ensures
            final(self)@ == old(self)@ + tasks@.map_values(|t: TarefaPendente| t@),
            final(self).wf(),
    {
        let ghost all = tasks@.map_values(|t: TarefaPendente| t@);
        let mut rest = tasks;
        let ghost mut k: int = 0;
        assert(old(self)@ + all.take(0) =~= old(self)@);
        assert(rest@.map_values(|t: TarefaPendente| t@) =~= all.skip(0));
        while rest.len() > 0
            invariant
                0 <= k <= all.len(),
                self.wf(),
                self@ == old(self)@ + all.take(k),
                rest@.map_values(|t: TarefaPendente| t@) == all.skip(k),
                forall|i: int| 0 <= i < rest@.len() ==> task_bounded(#[trigger] rest@[i]@),
            decreases rest.len(),
        {
            let ghost before = rest@;
            assert(before.map_values(|t: TarefaPendente| t@).len() == before.len());
            assert(k < all.len());
            assert(before.map_values(|t: TarefaPendente| t@)[0] == before[0]@);
            assert(all.skip(k)[0] == all[k]);
            let t = rest.remove(0);
            assert(t@ == all[k]);
            assert(task_bounded(before[0]@));
            self.push_back(t);
            assert(all.take(k + 1) =~= all.take(k).push(all[k]));
            assert(self@ =~= old(self)@ + all.take(k + 1));
            assert forall|j: int| 0 <= j < rest@.len() implies rest@.map_values(
                |t: TarefaPendente| t@,
            )[j] == #[trigger] all.skip(k + 1)[j] by {
                assert(rest@[j] == before[j + 1]);
                assert(before.map_values(|t: TarefaPendente| t@)[j + 1] == before[j + 1]@);
                assert(all.skip(k)[j + 1] == all[k + 1 + j]);
            }
            assert(rest@.map_values(|t: TarefaPendente| t@) =~= all.skip(k + 1));
            assert forall|i: int| 0 <= i < rest@.len() implies task_bounded(#[trigger] rest@[i]@) by {
                assert(rest@[i] == before[i + 1]);
            }
            proof {
                k = k + 1;
            }
        }
        assert(all.take(k) =~= all);
    }

    /// One scheduling step: takes the first sub-batch of the front task, as
    /// (task id, command); see `take_next`.
    pub fn take_next_batch(&mut self) -> (taken: Option<(String, String)>)
        requires
            old(self).wf(),
        ensures
            final(self).wf(),
            final(self)@ == take_next(old(self)@).0,
            match (taken, take_next(old(self)@).1) {
                (Some(b), Some(m)) => b.0@ == m.0 && b.1@ == m.1,
                (None, None) => true,
                _ => false,
            },
            old(self)@.len() == 0 ==> final(self)@ == old(self)@,
            old(self)@.len() > 0 ==> final(self)@.len() >= old(self)@.len() - 1
                && final(self)@.subrange(0, old(self)@.len() - 1) == old(self)@.subrange(
                1,
                old(self)@.len() as int,
            ),
            old(self)@.len() > 0 && old(self)@[0].sub_lotes.len() <= 1 ==> final(self)@ == old(
                self,
            )@.subrange(1, old(self)@.len() as int),
            old(self)@.len() > 0 && old(self)@[0].sub_lotes.len() > 1 ==> final(self)@.len()
                == old(self)@.len() && final(self)@[old(self)@.len() - 1] == (TaskView {
                id: old(self)@[0].id,
                comando_base: old(self)@[0].comando_base,
                sub_lotes: old(self)@[0].sub_lotes.subrange(1, old(self)@[0].sub_lotes.len() as int),
                lotes_concluidos: old(self)@[0].lotes_concluidos + 1,
            }),
            taken is Some <==> (old(self)@.len() > 0 && old(self)@[0].sub_lotes.len() > 0),
            taken matches Some(b) ==> b.0@ == old(self)@[0].id && b.1@ == old(self)@[0].sub_lotes[0],
    {
        let ghost q = old(self)@;
        proof {
            lemma_take_next_fifo(q);
        }
        match self.tarefas.pop_front() {
            None => {
                assert(self@ =~= q);
                None
            },
            Some(mut tarefa) => {
                assert(self@ =~= q.drop_first());
                assert(tarefa@ == q[0]);
                if tarefa.sub_lotes.len() == 0 {
                    None
                } else {
                    assert(task_bounded(q[0]));
                    let id = tarefa.id.clone();
                    let lote = tarefa.sub_lotes.remove(0);
                    tarefa.lotes_concluidos = tarefa.lotes_concluidos + 1;
                    assert(tarefa@.sub_lotes =~= q[0].sub_lotes.drop_first());
                    if tarefa.sub_lotes.len() > 0 {
                        let ghost before = self@;
                        self.tarefas.push_back(tarefa);
                        assert(self@ =~= before.push(advanced(q[0])));
                    }
                    Some((id, lote))
                }
            },
        }
    }
}

} // verus!
