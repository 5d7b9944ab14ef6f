//! The task: the scheduling unit that owns one suspendable computation.

use vstd::prelude::*;
use crate::computation::Computation;
use crate::handle::{Status, Step, TaskHandle, Waiter};
use crate::queue::ReadyQueue;
use crate::waker::{Context, ContextView, Waker};

verus! {

/// The mathematical content of a task: the computation it still owns, and its
/// completion state.
pub struct TaskView<C: Computation> {
    pub computation: Option<C>,
    pub status: Status,
}

impl<C: Computation> TaskView<C> {
    /// A task that has just been created around `computation`.
    pub open spec fn fresh(computation: C) -> TaskView<C> {
        TaskView { computation: Some(computation), status: Status::Pending }
    }

    /// A task owns its computation exactly as long as it is pending.
    pub open spec fn wf(self) -> bool {
        self.status is Pending <==> self.computation is Some
    }

    /// What a poll attempt in the context `cx` reports: the computation's
    /// step, or nothing when the completion guard keeps the poll from taking
    /// place.
    pub open spec fn poll_step(self, cx: ContextView) -> Option<Step<C::Output>> {
        if self.status is Pending && self.computation is Some {
            Some(self.computation->0.outcome(cx))
        } else {
            None
        }
    }

    /// The task after a poll attempt in the context `cx`.  A terminal step
    /// releases the computation; a terminal task is left as it is.
    pub open spec fn polled(self, cx: ContextView) -> TaskView<C> {
        match self.poll_step(cx) {
            None => self,
            Some(Step::Pending) => TaskView {
                computation: Some(self.computation->0.successor(cx)),
                status: Status::Pending,
            },
            Some(step) => TaskView { computation: None, status: step.status() },
        }
    }

    /// The context after a poll attempt that started in the context `cx`.
    pub open spec fn poll_context(self, cx: ContextView) -> ContextView {
        if self.poll_step(cx) is Some {
            cx.armed_with(self.computation->0.wakeups(cx))
        } else {
            cx
        }
    }

    /// The task after its owner has dropped it.
    pub open spec fn cancelled(self) -> TaskView<C> {
        if self.status is Pending {
            TaskView { computation: None, status: Status::Cancelled }
        } else {
            self
        }
    }
}

/// A computation together with its completion guard: once the computation has
/// reported a terminal step it is released and never polled again.
pub struct TaskFuture<C: Computation> {
    future: Option<C>,
    state: Status,
}

impl<C: Computation> View for TaskFuture<C> {
    type V = TaskView<C>;

    closed spec fn view(&self) -> TaskView<C> {
        TaskView { computation: self.future, status: self.state }
    }
}

impl<C: Computation> TaskFuture<C> {
    /// Wraps `computation`, which has not been polled yet.
    pub fn new(computation: C) -> (task_future: TaskFuture<C>)
        ensures
            task_future@ == TaskView::fresh(computation),
    {
        TaskFuture { future: Some(computation), state: Status::Pending }
    }

    /// The completion state.
    pub fn status(&self) -> (status: Status)
        ensures
            status == self@.status,
    {
        self.state
    }

    /// Polls the computation if it is still pending.  Spurious wakes are
    /// legal, also after the computation has ended, but a computation that has
    /// ended must not be polled: in that case nothing happens and `None` is
    /// returned.
    pub fn poll(&mut self, cx: &mut Context) -> (polled: Option<Step<C::Output>>)
        requires
            old(self)@.wf(),
        ensures
            final(self)@.wf(),
            polled == old(self)@.poll_step(old(cx)@),
            final(self)@ == old(self)@.polled(old(cx)@),
            final(cx)@ == old(self)@.poll_context(old(cx)@),
    {
        match self.state {
            Status::Pending => {
                let mut computation = self.future.take().unwrap();
                let step = computation.poll(cx);
                match step {
                    Step::Complete(value) => {
                        self.state = Status::Completed;
                        Some(Step::Complete(value))
                    },
                    Step::Failed => {
                        self.state = Status::Failed;
                        Some(Step::Failed)
                    },
                    Step::Pending => {
                        self.future = Some(computation);
                        Some(Step::Pending)
                    },
                }
            },
            _ => None,
        }
    }

    /// Drops the computation of a pending task.  Returns whether there was
    /// one to drop.
    pub fn cancel(&mut self) -> (dropped: bool)
        requires
            old(self)@.wf(),
        ensures
            final(self)@.wf(),
            dropped == (old(self)@.status is Pending),
            final(self)@ == old(self)@.cancelled(),
    {
        match self.state {
            Status::Pending => {
                self.future = None;
                self.state = Status::Cancelled;
                true
            },
            _ => false,
        }
    }
}

/// What a poll of a task gave: the step of its computation, if the
/// computation was polled, and the waiters that it armed.
pub struct Polled<T> {
    pub step: Option<Step<T>>,
    pub armed: Vec<Waiter>,
}

/// The scheduling unit: a computation with its completion guard, the identity
/// under which it is queued and woken, and the guard that keeps two polls of
/// it from overlapping.
pub struct Task<C: Computation> {
    id: TaskHandle,
    task_future: TaskFuture<C>,
    locked: bool,
}

impl<C: Computation> View for Task<C> {
    type V = TaskView<C>;

    closed spec fn view(&self) -> TaskView<C> {
        self.task_future@
    }
}

impl<C: Computation> Task<C> {
    /// The identity of the task.
    pub closed spec fn handle(&self) -> TaskHandle {
        self.id
    }

    /// Whether a poll of the task is under way.
    pub closed spec fn is_locked(&self) -> bool {
        self.locked
    }

    /// At rest a task is consistent and nobody polls it.
    pub open spec fn wf(&self) -> bool {
        &&& self@.wf()
        &&& !self.is_locked()
    }

    /// Creates the task `id` around `computation` and sends it to `queue`.
    pub fn spawn(id: TaskHandle, computation: C, queue: &mut ReadyQueue) -> (task: Task<C>)
        ensures
            task.wf(),
            task.handle() == id,
            task@ == TaskView::fresh(computation),
            final(queue)@ == old(queue)@.sent(id),
    {
        let task = Task { id, task_future: TaskFuture::new(computation), locked: false };
        task.schedule(queue);
        task
    }

    /// The identity of the task.
    pub fn id(&self) -> (id: TaskHandle)
        ensures
            id == self.handle(),
    {
        self.id
    }

    /// The completion state of the task.
    pub fn status(&self) -> (status: Status)
        ensures
            status == self@.status,
    {
        self.task_future.status()
    }

    /// Sends the task to `queue`, to be polled.
    pub fn schedule(&self, queue: &mut ReadyQueue)
        ensures
            final(queue)@ == old(queue)@.sent(self.handle()),
    {
        let _ = queue.send(self.id);
    }

    /// Polls the task at the instant `now`, in a context that carries a fresh
    /// wake capability bound to the task.  The task is held exclusively for
    /// the time of the poll; as no poll is ever under way when another one
    /// starts, taking hold of it cannot fail.
    pub fn poll(&mut self, now: u64) -> (polled: Polled<C::Output>)
        requires
            old(self).wf(),
        ensures
            final(self).wf(),
            final(self).handle() == old(self).handle(),
            final(self)@ == old(self)@.polled(ContextView::fresh(old(self).handle(), now)),
            polled.step == old(self)@.poll_step(ContextView::fresh(old(self).handle(), now)),
            polled.armed@ == old(self)@.poll_context(
                ContextView::fresh(old(self).handle(), now),
            ).armed,
    {
        let waker = Waker::new(self.id);
        let mut cx = Context::from_waker(waker, now);
        let acquired = self.try_lock();
        assert(acquired);
        let step = self.task_future.poll(&mut cx);
        self.unlock();
        Polled { step, armed: cx.into_armed() }
    }

    /// Drops the task's computation if the task is still pending.
    pub fn cancel(&mut self) -> (dropped: bool)
        requires
            old(self).wf(),
        ensures
            final(self).wf(),
            final(self).handle() == old(self).handle(),
            dropped == (old(self)@.status is Pending),
            final(self)@ == old(self)@.cancelled(),
    {
        self.task_future.cancel()
    }

    /// Takes exclusive hold of the task without waiting.  Fails when a poll
    /// is under way.
    fn try_lock(&mut self) -> (acquired: bool)
        ensures
            acquired == !old(self).locked,
            final(self).locked,
            final(self).id == old(self).id,
            final(self).task_future == old(self).task_future,
    {
        if self.locked {
            false
        } else {
            self.locked = true;
            true
        }
    }

    /// Gives up the hold taken by `try_lock`.
    fn unlock(&mut self)
        ensures
            !final(self).locked,
            final(self).id == old(self).id,
            final(self).task_future == old(self).task_future,
    {
        self.locked = false;
    }
}

} // verus!
