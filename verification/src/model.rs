//! The mathematical model of the executor: its state as plain sequences, and
//! each of its operations as a function from state to state.

use vstd::prelude::*;
use crate::computation::Computation;
use crate::handle::{Completion, Outcome, Status, Step, TaskHandle, Turn, TurnEvent, Waiter};
use crate::queue::{ReadyQueueView, RecvError};
use crate::task::TaskView;
use crate::waker::ContextView;

verus! {

/// The state of an executor.
pub struct ExecutorView<C: Computation> {
    /// Every task ever admitted, by handle.
    pub tasks: Seq<TaskView<C>>,
    /// The ready queue.
    pub queue: ReadyQueueView,
    /// The waiters that were armed and have not fired yet, oldest first.
    pub waiters: Seq<Waiter>,
    /// The completion log: the tasks that were polled to their end, in the
    /// order in which they ended.
    pub finished: Seq<Completion<C::Output>>,
}

/// The waiters among `waiters` that are not due at `now`, in their order.
pub open spec fn still_waiting(waiters: Seq<Waiter>, now: u64) -> Seq<Waiter>
    decreases waiters.len(),
{
    if waiters.len() == 0 {
        Seq::empty()
    } else {
        let before = still_waiting(waiters.drop_last(), now);
        if waiters.last().deadline > now {
            before.push(waiters.last())
        } else {
            before
        }
    }
}

/// `deadline` is the earliest deadline among `waiters`.
pub open spec fn is_earliest(waiters: Seq<Waiter>, deadline: u64) -> bool {
    &&& exists|i: int| 0 <= i < waiters.len() && (#[trigger] waiters[i]).deadline == deadline
    &&& forall|i: int| 0 <= i < waiters.len() ==> deadline <= (#[trigger] waiters[i]).deadline
}

impl<C: Computation> ExecutorView<C> {
    /// A new executor: no task, an open and empty queue.
    pub open spec fn fresh() -> ExecutorView<C> {
        ExecutorView {
            tasks: Seq::empty(),
            queue: ReadyQueueView::empty(),
            waiters: Seq::empty(),
            finished: Seq::empty(),
        }
    }

    /// Whether `handle` names a task of this executor.
    pub open spec fn knows(self, handle: TaskHandle) -> bool {
        handle.index < self.tasks.len()
    }

    /// The completion state of the task `handle`, if there is such a task.
    pub open spec fn status_of(self, handle: TaskHandle) -> Option<Status> {
        if self.knows(handle) {
            Some(self.tasks[handle.index as int].status)
        } else {
            None
        }
    }

    /// Whether `handle` names a task that may still be polled.
    pub open spec fn is_live(self, handle: TaskHandle) -> bool {
        self.status_of(handle) == Some(Status::Pending)
    }

    /// The entry `j` of the completion log names a task that ended the way
    /// the entry says.
    pub open spec fn records(self, j: int) -> bool {
        self.status_of(self.finished[j].task) == Some(self.finished[j].outcome.status())
    }

    /// The completion log holds an entry for the task at position `i`.
    pub open spec fn has_record(self, i: int) -> bool {
        exists|j: int| 0 <= j < self.finished.len() && (#[trigger] self.finished[j]).task.index == i
    }

    /// The consistency of an executor: every task owns its computation
    /// exactly while it is pending, and the completion log holds exactly one
    /// entry for each task that was polled to its end.
    pub open spec fn wf(self) -> bool {
        &&& self.tasks.len() <= usize::MAX
        &&& forall|i: int| 0 <= i < self.tasks.len() ==> (#[trigger] self.tasks[i]).wf()
        &&& forall|j: int| 0 <= j < self.finished.len() ==> #[trigger] self.records(j)
        &&& forall|j: int, k: int|
            0 <= j < k < self.finished.len() ==> (#[trigger] self.finished[j]).task != (
            #[trigger] self.finished[k]).task
        &&& forall|i: int|
            0 <= i < self.tasks.len() && (#[trigger] self.tasks[i]).status.is_settled()
                ==> self.has_record(i)
    }

    /// The handle that the next admitted task gets.
    pub open spec fn next_handle(self) -> TaskHandle {
        TaskHandle { index: self.tasks.len() as usize }
    }

    /// The state after `computation` has been admitted as a new task and sent
    /// to the ready queue.
    pub open spec fn spawned(self, computation: C) -> ExecutorView<C> {
        ExecutorView {
            tasks: self.tasks.push(TaskView::fresh(computation)),
            queue: self.queue.sent(self.next_handle()),
            waiters: self.waiters,
            finished: self.finished,
        }
    }

    /// The state after each of `computations` has been spawned, in order.
    pub open spec fn spawned_all(self, computations: Seq<C>) -> ExecutorView<C>
        decreases computations.len(),
    {
        if computations.len() == 0 {
            self
        } else {
            self.spawned_all(computations.drop_last()).spawned(computations.last())
        }
    }

    /// The state with the tasks `extra` behind those of the table.
    pub open spec fn admitted_more(self, extra: Seq<TaskView<C>>) -> ExecutorView<C> {
        ExecutorView {
            tasks: self.tasks + extra,
            queue: self.queue,
            waiters: self.waiters,
            finished: self.finished,
        }
    }

    /// The state with `extra` behind the entries of the ready queue.
    pub open spec fn queued_more(self, extra: Seq<TaskHandle>) -> ExecutorView<C> {
        ExecutorView {
            tasks: self.tasks,
            queue: ReadyQueueView {
                entries: self.queue.entries + extra,
                closed: self.queue.closed,
            },
            waiters: self.waiters,
            finished: self.finished,
        }
    }

    /// The state after a wake capability bound to `handle` has been invoked.
    pub open spec fn woken(self, handle: TaskHandle) -> ExecutorView<C> {
        ExecutorView {
            tasks: self.tasks,
            queue: self.queue.sent(handle),
            waiters: self.waiters,
            finished: self.finished,
        }
    }

    /// The state after `count` invocations of a wake capability bound to
    /// `handle`.
    pub open spec fn woken_times(self, handle: TaskHandle, count: nat) -> ExecutorView<C>
        decreases count,
    {
        if count == 0 {
            self
        } else {
            self.woken_times(handle, (count - 1) as nat).woken(handle)
        }
    }

    /// What the run loop records for an entry `handle` taken from the queue
    /// at `now`.
    pub open spec fn poll_event(self, handle: TaskHandle, now: u64) -> TurnEvent {
        if self.knows(handle) {
            match self.tasks[handle.index as int].poll_step(ContextView::fresh(handle, now)) {
                Some(step) => step.event(),
                None => TurnEvent::Skipped,
            }
        } else {
            TurnEvent::Skipped
        }
    }

    /// The completion log after a poll attempt of `handle` has reported
    /// `step`.
    pub open spec fn logged(
        self,
        handle: TaskHandle,
        step: Option<Step<C::Output>>,
    ) -> Seq<Completion<C::Output>> {
        match step {
            Some(Step::Complete(value)) => self.finished.push(
                Completion { task: handle, outcome: Outcome::Finished(value) },
            ),
            Some(Step::Failed) => self.finished.push(
                Completion { task: handle, outcome: Outcome::Failed },
            ),
            _ => self.finished,
        }
    }

    /// The state after the entry `handle` has been served at `now`: the task
    /// is polled if it is live, its new waiters are taken over, and a terminal
    /// step is entered into the completion log.  A stale entry changes
    /// nothing.
    pub open spec fn polled(self, handle: TaskHandle, now: u64) -> ExecutorView<C> {
        if self.knows(handle) {
            let cx = ContextView::fresh(handle, now);
            let task = self.tasks[handle.index as int];
            ExecutorView {
                tasks: self.tasks.update(handle.index as int, task.polled(cx)),
                queue: self.queue,
                waiters: self.waiters + task.poll_context(cx).armed,
                finished: self.logged(handle, task.poll_step(cx)),
            }
        } else {
            self
        }
    }

    /// The state with the oldest entry taken from the ready queue.
    pub open spec fn received(self) -> ExecutorView<C> {
        ExecutorView {
            tasks: self.tasks,
            queue: self.queue.received(),
            waiters: self.waiters,
            finished: self.finished,
        }
    }

    /// What one turn of the run loop at `now` gives: what was done with the
    /// oldest entry of the queue, or why there was no entry to take.
    pub open spec fn turn_record(self, now: u64) -> Result<Turn, RecvError> {
        match self.queue.front() {
            Ok(handle) => Ok(Turn { task: handle, event: self.poll_event(handle, now) }),
            Err(error) => Err(error),
        }
    }

    /// The state after one turn of the run loop at `now`: the oldest entry of
    /// the queue is taken and served.
    pub open spec fn turn(self, now: u64) -> ExecutorView<C> {
        match self.queue.front() {
            Ok(handle) => self.received().polled(handle, now),
            Err(_) => self,
        }
    }

    /// The state after `count` turns of the run loop at `now`.
    pub open spec fn turns(self, count: nat, now: u64) -> ExecutorView<C>
        decreases count,
    {
        if count == 0 {
            self
        } else {
            self.turns((count - 1) as nat, now).turn(now)
        }
    }

    /// What `count` turns of the run loop at `now` record, in order.
    pub open spec fn report(self, count: nat, now: u64) -> Seq<Turn>
        decreases count,
    {
        if count == 0 {
            Seq::empty()
        } else {
            let before = self.report((count - 1) as nat, now);
            match self.turns((count - 1) as nat, now).turn_record(now) {
                Ok(turn) => before.push(turn),
                Err(_) => before,
            }
        }
    }

    /// The state after a run at `now`: one turn for each entry of the queue.
    pub open spec fn ran(self, now: u64) -> ExecutorView<C> {
        self.turns(self.queue.entries.len(), now)
    }

    /// What a run at `now` records.
    pub open spec fn run_report(self, now: u64) -> Seq<Turn> {
        self.report(self.queue.entries.len(), now)
    }

    /// The tasks that `waiter` wakes when it fires at `now`: its target if it
    /// is due and the target is live, nothing otherwise.
    pub open spec fn fires(self, waiter: Waiter, now: u64) -> bool {
        waiter.deadline <= now && self.is_live(waiter.target)
    }

    /// The tasks woken when those of `waiters` that are due at `now` fire, in
    /// the order of the waiters.
    pub open spec fn woken_by(self, waiters: Seq<Waiter>, now: u64) -> Seq<TaskHandle>
        decreases waiters.len(),
    {
        if waiters.len() == 0 {
            Seq::empty()
        } else {
            let before = self.woken_by(waiters.drop_last(), now);
            if self.fires(waiters.last(), now) {
                before.push(waiters.last().target)
            } else {
                before
            }
        }
    }

    /// The state after `waiter` has been fired at `now`: its target is woken
    /// if the waiter is due and the target is still live.
    pub open spec fn fired_one(self, waiter: Waiter, now: u64) -> ExecutorView<C> {
        if self.fires(waiter, now) {
            self.woken(waiter.target)
        } else {
            self
        }
    }

    /// The state after every waiter that is due at `now` has fired: each
    /// wakes its target if that task is still live, and is gone.
    pub open spec fn fired(self, now: u64) -> ExecutorView<C> {
        ExecutorView {
            tasks: self.tasks,
            queue: self.queue.sent_all(self.woken_by(self.waiters, now)),
            waiters: still_waiting(self.waiters, now),
            finished: self.finished,
        }
    }

    /// The state after the task `handle` has been dropped.
    pub open spec fn cancelled(self, handle: TaskHandle) -> ExecutorView<C> {
        if self.knows(handle) {
            ExecutorView {
                tasks: self.tasks.update(
                    handle.index as int,
                    self.tasks[handle.index as int].cancelled(),
                ),
                queue: self.queue,
                waiters: self.waiters,
                finished: self.finished,
            }
        } else {
            self
        }
    }

    /// The state after the ready queue has been closed.
    pub open spec fn shut(self) -> ExecutorView<C> {
        ExecutorView {
            tasks: self.tasks,
            queue: self.queue.shut(),
            waiters: self.waiters,
            finished: self.finished,
        }
    }

    /// The state after the outstanding waiters have been handed out.
    pub open spec fn disarmed(self) -> ExecutorView<C> {
        ExecutorView {
            tasks: self.tasks,
            queue: self.queue,
            waiters: Seq::empty(),
            finished: self.finished,
        }
    }
}

/// Serving a queue entry keeps the executor consistent.
pub proof fn lemma_polled_wf<C: Computation>(s: ExecutorView<C>, handle: TaskHandle, now: u64)
    requires
        s.wf(),
    ensures
        s.polled(handle, now).wf(),
{
    if s.knows(handle) {
        let after = s.polled(handle, now);
        let at = handle.index as int;
        let cx = ContextView::fresh(handle, now);
        let task = s.tasks[at];
        let step = task.poll_step(cx);
        assert(task.wf());
        assert(after.tasks[at] == task.polled(cx));
        assert forall|j: int| 0 <= j < s.finished.len() implies (#[trigger] s.finished[j]).task.index
            != at || step is None by {
            assert(s.records(j));
        }
        assert forall|i: int| 0 <= i < after.tasks.len() implies (#[trigger] after.tasks[i]).wf() by {
            if i != at {
                assert(after.tasks[i] == s.tasks[i]);
            }
        }
        assert forall|j: int| 0 <= j < after.finished.len() implies #[trigger] after.records(j) by {
            if j < s.finished.len() {
                assert(s.records(j));
                assert(after.finished[j] == s.finished[j]);
            }
        }
        assert forall|j: int, k: int| 0 <= j < k < after.finished.len() implies (
        #[trigger] after.finished[j]).task != (#[trigger] after.finished[k]).task by {
            assert(after.finished[j] == s.finished[j]);
            if k < s.finished.len() {
                assert(after.finished[k] == s.finished[k]);
            }
        }
        assert forall|i: int|
            0 <= i < after.tasks.len() && (#[trigger] after.tasks[i]).status.is_settled()
            implies after.has_record(i) by {
            if i != at || step is None {
                assert(after.tasks[i] == s.tasks[i]);
                assert(s.has_record(i));
                let j = choose|j: int|
                    0 <= j < s.finished.len() && (#[trigger] s.finished[j]).task.index == i;
                assert(after.finished[j] == s.finished[j]);
            } else {
                let last = after.finished.len() - 1;
                assert(after.finished[last].task.index == i);
            }
        }
    }
}

/// Admitting a task keeps the executor consistent, as long as handles are
/// left.
pub proof fn lemma_spawned_wf<C: Computation>(s: ExecutorView<C>, computation: C)
    requires
        s.wf(),
        s.tasks.len() < usize::MAX,
    ensures
        s.spawned(computation).wf(),
{
    let after = s.spawned(computation);
    assert forall|i: int| 0 <= i < after.tasks.len() implies (#[trigger] after.tasks[i]).wf() by {
        if i < s.tasks.len() {
            assert(after.tasks[i] == s.tasks[i]);
        }
    }
    assert forall|j: int| 0 <= j < after.finished.len() implies #[trigger] after.records(j) by {
        assert(s.records(j));
    }
    assert forall|i: int|
        0 <= i < after.tasks.len() && (#[trigger] after.tasks[i]).status.is_settled()
        implies after.has_record(i) by {
        assert(after.tasks[i] == s.tasks[i]);
        assert(s.has_record(i));
    }
}

/// Dropping a task keeps the executor consistent.
pub proof fn lemma_cancelled_wf<C: Computation>(s: ExecutorView<C>, handle: TaskHandle)
    requires
        s.wf(),
    ensures
        s.cancelled(handle).wf(),
{
    if s.knows(handle) {
        let after = s.cancelled(handle);
        let at = handle.index as int;
        assert(s.tasks[at].wf());
        assert forall|i: int| 0 <= i < after.tasks.len() implies (#[trigger] after.tasks[i]).wf() by {
            if i != at {
                assert(after.tasks[i] == s.tasks[i]);
            }
        }
        assert forall|j: int| 0 <= j < after.finished.len() implies #[trigger] after.records(j) by {
            assert(s.records(j));
        }
        assert forall|i: int|
            0 <= i < after.tasks.len() && (#[trigger] after.tasks[i]).status.is_settled()
            implies after.has_record(i) by {
            assert(s.tasks[i].status.is_settled());
            assert(s.has_record(i));
        }
    }
}

/// Consistency is a matter of the tasks and the completion log alone.
pub proof fn lemma_wf_frame<C: Computation>(s: ExecutorView<C>, t: ExecutorView<C>)
    requires
        s.wf(),
        t.tasks == s.tasks,
        t.finished == s.finished,
    ensures
        t.wf(),
{
    assert forall|j: int| 0 <= j < t.finished.len() implies #[trigger] t.records(j) by {
        assert(s.records(j));
    }
    assert forall|i: int|
        0 <= i < t.tasks.len() && (#[trigger] t.tasks[i]).status.is_settled() implies t.has_record(
        i,
    ) by {
        assert(s.has_record(i));
    }
}

/// A turn of the run loop keeps the executor consistent.
pub proof fn lemma_turn_wf<C: Computation>(s: ExecutorView<C>, now: u64)
    requires
        s.wf(),
    ensures
        s.turn(now).wf(),
{
    match s.queue.front() {
        Ok(handle) => {
            lemma_wf_frame(s, s.received());
            lemma_polled_wf(s.received(), handle, now);
        },
        Err(_) => {},
    }
}

/// After `count` turns the queue holds what was behind its first `count`
/// entries.
pub proof fn lemma_turns_queue<C: Computation>(s: ExecutorView<C>, count: nat, now: u64)
    requires
        count <= s.queue.entries.len(),
    ensures
        s.turns(count, now).queue.entries == s.queue.entries.skip(count as int),
    decreases count,
{
    if count > 0 {
        lemma_turns_queue(s, (count - 1) as nat, now);
        let before = s.turns((count - 1) as nat, now);
        assert(before.turn(now).queue.entries =~= s.queue.entries.skip(count as int));
    } else {
        assert(s.queue.entries.skip(0) =~= s.queue.entries);
    }
}

/// A run serves the queue first in, first out: it makes one turn for each
/// entry that was queued when it began, in the order of the entries.
pub proof fn lemma_run_is_fifo<C: Computation>(s: ExecutorView<C>, count: nat, now: u64)
    requires
        count <= s.queue.entries.len(),
    ensures
        s.report(count, now).len() == count,
        forall|i: int|
            0 <= i < count ==> (#[trigger] s.report(count, now)[i]).task == s.queue.entries[i],
    decreases count,
{
    if count > 0 {
        let before = (count - 1) as nat;
        lemma_run_is_fifo(s, before, now);
        lemma_turns_queue(s, before, now);
        let cur = s.turns(before, now);
        assert(cur.queue.entries[0] == s.queue.entries[before as int]);
        assert forall|i: int| 0 <= i < count implies (#[trigger] s.report(count, now)[i]).task
            == s.queue.entries[i] by {
            if i < before {
                assert(s.report(count, now)[i] == s.report(before, now)[i]);
            }
        }
    }
}

} // verus!
