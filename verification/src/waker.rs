//! The wake capability and the context handed to a poll.

use vstd::prelude::*;
use crate::handle::{TaskHandle, Waiter};
use crate::queue::ReadyQueue;

verus! {

/// A wake capability: a handle bound to exactly one task.  Invoking it sends
/// that task to a ready queue.  It may be cloned freely and invoked any number
/// of times, also after the task has ended.
#[derive(Debug)]
pub struct Waker {
    task: TaskHandle,
}

impl View for Waker {
    type V = TaskHandle;

    /// The task that this capability is bound to.
    closed spec fn view(&self) -> TaskHandle {
        self.task
    }
}

impl Clone for Waker {
    fn clone(&self) -> (copy: Waker)
        ensures
            copy@ == self@,
    {
        Waker { task: self.task }
    }
}

impl Waker {
    /// Creates a capability bound to `task`.
    pub fn new(task: TaskHandle) -> (waker: Waker)
        ensures
            waker@ == task,
    {
        Waker { task }
    }

    /// The task that this capability is bound to.
    pub fn task(&self) -> (task: TaskHandle)
        ensures
            task == self@,
    {
        self.task
    }

    /// Sends the bound task to `queue` and gives the capability up.  On a
    /// closed queue the wake is dropped without a trace.
    pub fn wake(self, queue: &mut ReadyQueue)
        ensures
            final(queue)@ == old(queue)@.sent(self@),
    {
        self.wake_by_ref(queue);
    }

    /// Sends the bound task to `queue` and keeps the capability.  On a closed
    /// queue the wake is dropped without a trace.
    pub fn wake_by_ref(&self, queue: &mut ReadyQueue)
        ensures
            final(queue)@ == old(queue)@.sent(self@),
    {
        let _ = queue.send(self.task);
    }
}

/// The mathematical content of a poll context.
pub struct ContextView {
    /// The task that is being polled.
    pub task: TaskHandle,
    /// The instant at which the poll takes place.
    pub now: u64,
    /// The waiters armed so far during the poll, in the order of arming.
    pub armed: Seq<Waiter>,
}

impl ContextView {
    /// The context at the start of a poll of `task` at `now`.
    pub open spec fn fresh(task: TaskHandle, now: u64) -> ContextView {
        ContextView { task, now, armed: Seq::empty() }
    }

    /// The waiters that wake the polled task at the given deadlines.
    pub open spec fn waiters_for(self, deadlines: Seq<u64>) -> Seq<Waiter> {
        Seq::new(deadlines.len(), |i: int| Waiter { deadline: deadlines[i], target: self.task })
    }

    /// The context after one waiter has been armed for each deadline.
    pub open spec fn armed_with(self, deadlines: Seq<u64>) -> ContextView {
        ContextView {
            task: self.task,
            now: self.now,
            armed: self.armed + self.waiters_for(deadlines),
        }
    }
}

/// The resumption context of one poll: the wake capability of the polled
/// task, the instant of the poll, and the waiters that the computation arms
/// before it yields.
pub struct Context {
    waker: Waker,
    now: u64,
    armed: Vec<Waiter>,
}

impl View for Context {
    type V = ContextView;

    closed spec fn view(&self) -> ContextView {
        ContextView { task: self.waker@, now: self.now, armed: self.armed@ }
    }
}

impl Context {
    /// Creates the context of a poll that takes place at `now`, around the
    /// polled task's wake capability.
    pub fn from_waker(waker: Waker, now: u64) -> (cx: Context)
        ensures
            cx@ == ContextView::fresh(waker@, now),
    {
        Context { waker, now, armed: Vec::new() }
    }

    /// The wake capability of the polled task.
    pub fn waker(&self) -> (waker: &Waker)
        ensures
            waker@ == self@.task,
    {
        &self.waker
    }

    /// The instant at which the poll takes place.
    pub fn now(&self) -> (now: u64)
        ensures
            now == self@.now,
    {
        self.now
    }

    /// Arms a background waiter that wakes the polled task once `deadline` has
    /// been reached.
    pub fn sleep_until(&mut self, deadline: u64)
        ensures
            final(self)@ == old(self)@.armed_with(seq![deadline]),
    {
        let waiter = Waiter { deadline, target: self.waker.task() };
        self.armed.push(waiter);
        assert(self@.armed =~= old(self)@.armed_with(seq![deadline]).armed);
    }

    /// Ends the poll and hands out the waiters that were armed during it.
    pub fn into_armed(self) -> (armed: Vec<Waiter>)
        ensures
            armed@ == self@.armed,
    {
        self.armed
    }
}

} // verus!
