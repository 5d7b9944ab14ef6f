//! The ready queue: the first-in, first-out channel through which runnable
//! tasks reach the run loop.

use std::collections::VecDeque;
use vstd::prelude::*;
use crate::handle::TaskHandle;

verus! {

/// The mathematical content of a ready queue.
pub struct ReadyQueueView {
    /// The queued handles, oldest first.
    pub entries: Seq<TaskHandle>,
    /// Whether the producer side has been shut for good.
    pub closed: bool,
}

impl ReadyQueueView {
    /// A new queue: open and empty.
    pub open spec fn empty() -> ReadyQueueView {
        ReadyQueueView { entries: Seq::empty(), closed: false }
    }

    /// The queue after a producer has sent `task`: appended at the back, or
    /// dropped when the queue is closed.
    pub open spec fn sent(self, task: TaskHandle) -> ReadyQueueView {
        if self.closed {
            self
        } else {
            ReadyQueueView { entries: self.entries.push(task), closed: self.closed }
        }
    }

    /// The queue after a producer has sent each of `tasks`, in order.
    pub open spec fn sent_all(self, tasks: Seq<TaskHandle>) -> ReadyQueueView {
        if self.closed {
            self
        } else {
            ReadyQueueView { entries: self.entries + tasks, closed: self.closed }
        }
    }

    /// What a receive attempt gives.
    pub open spec fn front(self) -> Result<TaskHandle, RecvError> {
        if self.entries.len() > 0 {
            Ok(self.entries[0])
        } else if self.closed {
            Err(RecvError::Disconnected)
        } else {
            Err(RecvError::Empty)
        }
    }

    /// The queue after a receive attempt.
    pub open spec fn received(self) -> ReadyQueueView {
        if self.entries.len() > 0 {
            ReadyQueueView { entries: self.entries.drop_first(), closed: self.closed }
        } else {
            self
        }
    }

    /// The queue after the producer side has been shut.
    pub open spec fn shut(self) -> ReadyQueueView {
        ReadyQueueView { entries: self.entries, closed: true }
    }
}

/// Why a receive attempt gave no task.
#[derive(Clone, Copy, Debug, PartialEq, Eq, Structural)]
pub enum RecvError {
    /// Nothing is queued, but a producer may still send.
    Empty,
    /// The queue is closed and drained: nothing will ever arrive.
    Disconnected,
}

/// An unbounded, order-preserving queue of task handles.
pub struct ReadyQueue {
    entries: VecDeque<TaskHandle>,
    closed: bool,
}

impl View for ReadyQueue {
    type V = ReadyQueueView;

    closed spec fn view(&self) -> ReadyQueueView {
        ReadyQueueView { entries: self.entries@, closed: self.closed }
    }
}

impl ReadyQueue {
    /// Creates an open, empty queue.
    pub fn new() -> (queue: ReadyQueue)
        ensures
            queue@ == ReadyQueueView::empty(),
    {
        ReadyQueue { entries: VecDeque::new(), closed: false }
    }

    /// Enqueues `task` at the back.  On a closed queue the handle is dropped
    /// and `false` is returned.
    pub fn send(&mut self, task: TaskHandle) -> (accepted: bool)
        ensures
            accepted == !old(self)@.closed,
            final(self)@ == old(self)@.sent(task),
    {
        if self.closed {
            false
        } else {
            self.entries.push_back(task);
            true
        }
    }

    /// Takes the oldest entry, if there is one.  Never blocks: an empty queue
    /// reports whether more may still arrive.
    pub fn try_recv(&mut self) -> (received: Result<TaskHandle, RecvError>)
        ensures
            received == old(self)@.front(),
            final(self)@ == old(self)@.received(),
    {
        match self.entries.pop_front() {
            Some(task) => Ok(task),
            None => {
                if self.closed {
                    Err(RecvError::Disconnected)
                } else {
                    Err(RecvError::Empty)
                }
            },
        }
    }

    /// Shuts the producer side: what is queued can still be received, what is
    /// sent from now on is dropped.
    pub fn close(&mut self)
        ensures
            final(self)@ == old(self)@.shut(),
    {
        self.closed = true;
    }

    /// Whether the producer side has been shut.
    pub fn is_closed(&self) -> (closed: bool)
        ensures
            closed == self@.closed,
    {
        self.closed
    }

    /// The number of queued entries.
    pub fn len(&self) -> (len: usize)
        ensures
            len == self@.entries.len(),
    {
        self.entries.len()
    }

    /// Whether nothing is queued.
    pub fn is_empty(&self) -> (empty: bool)
        ensures
            empty == (self@.entries.len() == 0),
    {
        self.entries.len() == 0
    }
}

} // verus!
