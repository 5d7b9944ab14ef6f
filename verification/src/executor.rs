//! The executor: the table of tasks, the ready queue and the run loop.

use vstd::prelude::*;
use crate::computation::Computation;
use crate::handle::{Completion, Outcome, Status, Step, TaskHandle, Turn, TurnEvent, Waiter};
use crate::model::{
    is_earliest, lemma_cancelled_wf, lemma_polled_wf, lemma_run_is_fifo, lemma_wf_frame,
    still_waiting, ExecutorView,
};
use crate::queue::{ReadyQueue, RecvError};
use crate::task::Task;
use crate::waker::Waker;

verus! {

/// A single-threaded cooperative executor for computations of type `C`.
///
/// The executor is an ordinary value, built by its caller and driven by it:
/// `spawn` admits work, `run` polls whatever is ready, and events from
/// outside come back in through `wake`, `fire` and `fire_due`.  Nothing in it
/// ever blocks.
pub struct Executor<C: Computation> {
    tasks: Vec<Task<C>>,
    scheduled: ReadyQueue,
    waiters: Vec<Waiter>,
    finished: Vec<Completion<C::Output>>,
}

impl<C: Computation> View for Executor<C> {
    type V = ExecutorView<C>;

    closed spec fn view(&self) -> ExecutorView<C> {
        ExecutorView {
            tasks: Seq::new(self.tasks@.len(), |i: int| self.tasks@[i]@),
            queue: self.scheduled@,
            waiters: self.waiters@,
            finished: self.finished@,
        }
    }
}

impl<C: Computation> Executor<C> {
    /// The executor is consistent, every task is at rest, and every task is
    /// stored under its own handle.
    pub closed spec fn wf(&self) -> bool {
        &&& self@.wf()
        &&& forall|i: int|
            0 <= i < self.tasks@.len() ==> {
                &&& (#[trigger] self.tasks@[i]).wf()
                &&& self.tasks@[i].handle().index == i
            }
    }

    /// Creates an executor without tasks, with an open and empty ready queue.
    pub fn new() -> (executor: Executor<C>)
        ensures
            executor.wf(),
            executor@ == ExecutorView::<C>::fresh(),
    {
        let executor = Executor {
            tasks: Vec::new(),
            scheduled: ReadyQueue::new(),
            waiters: Vec::new(),
            finished: Vec::new(),
        };
        assert(executor@.tasks =~= Seq::empty());
        executor
    }

    /// Admits `computation` as a new task and sends it to the ready queue.
    /// Returns at once: the computation is first polled by a later `run`.
    /// Sequential spawns are queued in the order of the calls.  On an executor
    /// that was shut down the task is admitted but, as every send is then
    /// dropped, never polled.
    pub fn spawn(&mut self, computation: C) -> (handle: TaskHandle)
        requires
            old(self).wf(),
        ensures
            final(self).wf(),
            handle == old(self)@.next_handle(),
            final(self)@ == old(self)@.spawned(computation),
    {
        let handle = TaskHandle { index: self.tasks.len() };
        let task = Task::spawn(handle, computation, &mut self.scheduled);
        self.tasks.push(task);
        proof {
            let before = old(self)@;
            let after = self@;
            assert(after.tasks =~= before.tasks.push(task@));
            assert(after.wf()) by {
                assert(after.tasks.len() == self.tasks.len());
                assert forall|i: int| 0 <= i < after.tasks.len() implies (
                #[trigger] after.tasks[i]).wf() by {
                    if i < before.tasks.len() {
                        assert(after.tasks[i] == before.tasks[i]);
                    }
                }
                assert forall|j: int| 0 <= j < after.finished.len() implies #[trigger] after.records(
                    j,
                ) by {
                    assert(before.records(j));
                }
                assert forall|i: int|
                    0 <= i < after.tasks.len() && (#[trigger] after.tasks[i]).status.is_settled()
                    implies after.has_record(i) by {
                    assert(after.tasks[i] == before.tasks[i]);
                    assert(before.has_record(i));
                }
            }
        }
        handle
    }

    /// Invokes `waker` on this executor's ready queue: the bound task is
    /// queued once more, whatever its state.  An entry for a task that has
    /// ended, or that this executor never admitted, is skipped when the run
    /// loop comes to it.  On an executor that was shut down nothing happens.
    pub fn wake(&mut self, waker: &Waker)
        requires
            old(self).wf(),
        ensures
            final(self).wf(),
            final(self)@ == old(self)@.woken(waker@),
    {
        waker.wake_by_ref(&mut self.scheduled);
        proof {
            assert(self@.tasks =~= old(self)@.tasks);
            lemma_wf_frame(old(self)@, self@);
        }
    }

    /// Performs one turn of the run loop at the instant `now`: takes the
    /// oldest entry of the ready queue and polls the task it names, in a
    /// context with a fresh wake capability bound to that task.
    ///
    /// A task that completes or fails is entered into the completion log and
    /// its computation is released.  A task that is not ready is not queued
    /// again: the waiters that it armed are taken over, and it is polled again
    /// only after one of them, or another holder of its wake capability, has
    /// woken it.  An entry for a task that has ended is skipped without a
    /// poll.
    ///
    /// Returns what happened.  When the queue is empty nothing happens, and
    /// the error tells what a loop that waits for entries is to do: with
    /// `Empty` it waits, as a wake may still arrive; with `Disconnected` it
    /// ends, as the queue is closed and drained.
    pub fn turn(&mut self, now: u64) -> (turn: Result<Turn, RecvError>)
        requires
            old(self).wf(),
        ensures
            final(self).wf(),
            turn == old(self)@.turn_record(now),
            final(self)@ == old(self)@.turn(now),
    {
        let received = self.scheduled.try_recv();
        match received {
            Err(error) => Err(error),
            Ok(handle) => {
                let ghost taken = self@;
                proof {
                    assert(taken.tasks =~= old(self)@.tasks);
                    assert(taken == old(self)@.received());
                    lemma_wf_frame(old(self)@, taken);
                    assert(old(self)@.queue.front() == Ok::<TaskHandle, RecvError>(handle));
                    lemma_polled_wf(taken, handle, now);
                }
                if handle.index >= self.tasks.len() {
                    return Ok(Turn { task: handle, event: TurnEvent::Skipped });
                }
                let mut polled = self.tasks[handle.index].poll(now);
                self.waiters.append(&mut polled.armed);
                let event = match polled.step {
                    None => TurnEvent::Skipped,
                    Some(Step::Pending) => TurnEvent::Suspended,
                    Some(Step::Failed) => {
                        self.finished.push(Completion { task: handle, outcome: Outcome::Failed });
                        TurnEvent::Failed
                    },
                    Some(Step::Complete(value)) => {
                        self.finished.push(
                            Completion { task: handle, outcome: Outcome::Finished(value) },
                        );
                        TurnEvent::Completed
                    },
                };
                proof {
                    let goal = taken.polled(handle, now);
                    assert(self@.tasks =~= goal.tasks);
                    assert(self@.waiters =~= goal.waiters);
                    assert(self@.finished =~= goal.finished);
                    assert(self@ == goal);
                }
                Ok(Turn { task: handle, event })
            },
        }
    }

    /// Runs the loop at the instant `now` until the ready queue is drained:
    /// one turn for each entry, oldest first.  Returns what each turn did.
    ///
    /// As no poll can send to the queue, the loop ends after as many turns as
    /// there were entries.  Whether anything can still arrive afterwards is
    /// for the caller to see: `is_disconnected` tells that the queue is closed
    /// and drained.
    pub fn run(&mut self, now: u64) -> (report: Vec<Turn>)
        requires
            old(self).wf(),
        ensures
            final(self).wf(),
            report@ == old(self)@.run_report(now),
            final(self)@ == old(self)@.ran(now),
            final(self)@.queue.entries.len() == 0,
            report@.len() == old(self)@.queue.entries.len(),
            forall|i: int|
                0 <= i < report@.len() ==> (#[trigger] report@[i]).task == old(
                    self,
                )@.queue.entries[i],
    {
        let mut report: Vec<Turn> = Vec::new();
        let count: usize = self.scheduled.len();
        let mut done: usize = 0;
        while done < count
            invariant
                self.wf(),
                done <= count,
                count == old(self)@.queue.entries.len(),
                self@.queue.entries.len() == count - done,
                self@ == old(self)@.turns(done as nat, now),
                report@ == old(self)@.report(done as nat, now),
            decreases count - done,
        {
            let turn = self.turn(now);
            match turn {
                Ok(turn) => {
                    report.push(turn);
                },
                Err(_) => {},
            }
            done += 1;
        }
        proof {
            lemma_run_is_fifo(old(self)@, count as nat, now);
        }
        report
    }

    /// Fires one waiter at the instant `now`, for a caller that hosts the
    /// waiters itself.  The waiter holds no more than the handle of its
    /// target: if the target has ended or was dropped, or if the deadline has
    /// not been reached, nothing happens.  Returns whether the target was
    /// woken.
    pub fn fire(&mut self, waiter: Waiter, now: u64) -> (woke: bool)
        requires
            old(self).wf(),
        ensures
            final(self).wf(),
            woke == old(self)@.fires(waiter, now),
            final(self)@ == old(self)@.fired_one(waiter, now),
    {
        if waiter.deadline <= now && self.is_live(waiter.target) {
            let waker = Waker::new(waiter.target);
            self.wake(&waker);
            true
        } else {
            false
        }
    }

    /// Fires every outstanding waiter that is due at the instant `now`, in
    /// the order in which they were armed, and forgets it.  A waiter whose
    /// target has ended or was dropped wakes nothing.  Waiters that are not
    /// due stay outstanding.  Returns how many waiters were due.
    pub fn fire_due(&mut self, now: u64) -> (due: usize)
        requires
            old(self).wf(),
        ensures
            final(self).wf(),
            final(self)@ == old(self)@.fired(now),
            due == old(self)@.waiters.len() - final(self)@.waiters.len(),
    {
        let mut kept: Vec<Waiter> = Vec::new();
        let total: usize = self.waiters.len();
        let mut at: usize = 0;
        while at < total
            invariant
                old(self).wf(),
                self.wf(),
                at <= total,
                total == old(self).waiters@.len(),
                self.tasks == old(self).tasks,
                self.finished == old(self).finished,
                self.waiters == old(self).waiters,
                self.scheduled@ == old(self)@.queue.sent_all(
                    old(self)@.woken_by(old(self).waiters@.take(at as int), now),
                ),
                kept@ == still_waiting(old(self).waiters@.take(at as int), now),
                kept@.len() <= at,
            decreases total - at,
        {
            let waiter = self.waiters[at];
            proof {
                let seen = old(self).waiters@.take(at as int + 1);
                assert(seen.drop_last() =~= old(self).waiters@.take(at as int));
                assert(seen.last() == waiter);
                assert(self@.is_live(waiter.target) == old(self)@.is_live(waiter.target));
            }
            if waiter.deadline > now {
                kept.push(waiter);
            } else if self.is_live(waiter.target) {
                let ghost sent = old(self)@.woken_by(old(self).waiters@.take(at as int), now);
                let _ = self.scheduled.send(waiter.target);
                proof {
                    assert(old(self)@.queue.entries + sent.push(waiter.target) =~= (
                    old(self)@.queue.entries + sent).push(waiter.target));
                    assert(self@.tasks =~= old(self)@.tasks);
                    lemma_wf_frame(old(self)@, self@);
                }
            }
            at += 1;
        }
        proof {
            assert(old(self).waiters@.take(total as int) =~= old(self).waiters@);
        }
        self.waiters = kept;
        proof {
            assert(self@.tasks =~= old(self)@.tasks);
            lemma_wf_frame(old(self)@, self@);
        }
        total - self.waiters.len()
    }

    /// Hands the outstanding waiters to the caller, who from now on hosts
    /// them: each is to be given back through `fire` once its deadline has
    /// been reached.
    pub fn take_waiters(&mut self) -> (waiters: Vec<Waiter>)
        requires
            old(self).wf(),
        ensures
            final(self).wf(),
            waiters@ == old(self)@.waiters,
            final(self)@ == old(self)@.disarmed(),
    {
        let mut waiters: Vec<Waiter> = Vec::new();
        std::mem::swap(&mut waiters, &mut self.waiters);
        proof {
            assert(self@.tasks =~= old(self)@.tasks);
            lemma_wf_frame(old(self)@, self@);
        }
        waiters
    }

    /// Drops the task `handle` if it is still pending: its computation is
    /// released and it will never be polled again.  Queue entries and waiters
    /// that still name it are harmless.  Returns whether a task was dropped.
    pub fn cancel(&mut self, handle: TaskHandle) -> (dropped: bool)
        requires
            old(self).wf(),
        ensures
            final(self).wf(),
            dropped == old(self)@.is_live(handle),
            final(self)@ == old(self)@.cancelled(handle),
    {
        if handle.index >= self.tasks.len() {
            return false;
        }
        let dropped = self.tasks[handle.index].cancel();
        proof {
            assert(self@.tasks =~= old(self)@.cancelled(handle).tasks);
            assert(self@ == old(self)@.cancelled(handle));
            lemma_cancelled_wf(old(self)@, handle);
        }
        dropped
    }

    /// Closes the ready queue for good.  What is queued is still served by
    /// `run`; every later wake is dropped.
    pub fn shutdown(&mut self)
        requires
            old(self).wf(),
        ensures
            final(self).wf(),
            final(self)@ == old(self)@.shut(),
    {
        self.scheduled.close();
        proof {
            assert(self@.tasks =~= old(self)@.tasks);
            lemma_wf_frame(old(self)@, self@);
        }
    }

    /// Whether `handle` names a task that may still be polled.
    pub fn is_live(&self, handle: TaskHandle) -> (live: bool)
        ensures
            live == self@.is_live(handle),
    {
        if handle.index < self.tasks.len() {
            matches!(self.tasks[handle.index].status(), Status::Pending)
        } else {
            false
        }
    }

    /// The completion state of the task `handle`, or `None` if this executor
    /// admitted no such task.
    pub fn status(&self, handle: TaskHandle) -> (status: Option<Status>)
        ensures
            status == self@.status_of(handle),
    {
        if handle.index < self.tasks.len() {
            Some(self.tasks[handle.index].status())
        } else {
            None
        }
    }

    /// The completion log: one entry for each task that was polled to its
    /// end, in the order in which they ended.
    pub fn completions(&self) -> (log: &Vec<Completion<C::Output>>)
        ensures
            log@ == self@.finished,
    {
        &self.finished
    }

    /// The waiters that were armed and have not fired yet, oldest first.
    pub fn waiters(&self) -> (waiters: &Vec<Waiter>)
        ensures
            waiters@ == self@.waiters,
    {
        &self.waiters
    }

    /// The earliest deadline among the outstanding waiters: the instant
    /// before which `fire_due` has nothing to do.
    pub fn next_deadline(&self) -> (earliest: Option<u64>)
        ensures
            match earliest {
                Some(deadline) => is_earliest(self@.waiters, deadline),
                None => self@.waiters.len() == 0,
            },
    {
        if self.waiters.len() == 0 {
            return None;
        }
        let mut earliest: u64 = self.waiters[0].deadline;
        let mut at: usize = 1;
        proof {
            assert(self.waiters@.take(1)[0].deadline == earliest);
        }
        while at < self.waiters.len()
            invariant
                1 <= at <= self.waiters@.len(),
                is_earliest(self.waiters@.take(at as int), earliest),
            decreases self.waiters@.len() - at,
        {
            let ghost seen = self.waiters@.take(at as int);
            let ghost next = self.waiters@.take(at as int + 1);
            let ghost found = choose|i: int|
                0 <= i < seen.len() && (#[trigger] seen[i]).deadline == earliest;
            if self.waiters[at].deadline < earliest {
                earliest = self.waiters[at].deadline;
                proof {
                    assert(next[at as int].deadline == earliest);
                }
            } else {
                proof {
                    assert(next[found].deadline == earliest);
                }
            }
            proof {
                assert forall|i: int| 0 <= i < next.len() implies earliest <= (
                #[trigger] next[i]).deadline by {
                    if i < at {
                        assert(seen[i] == next[i]);
                    }
                }
            }
            at += 1;
        }
        proof {
            assert(self.waiters@.take(at as int) =~= self.waiters@);
        }
        Some(earliest)
    }

    /// The number of tasks admitted so far.
    pub fn task_count(&self) -> (count: usize)
        ensures
            count == self@.tasks.len(),
    {
        self.tasks.len()
    }

    /// The number of entries in the ready queue.
    pub fn ready_len(&self) -> (len: usize)
        ensures
            len == self@.queue.entries.len(),
    {
        self.scheduled.len()
    }

    /// Whether the ready queue has been closed.
    pub fn is_closed(&self) -> (closed: bool)
        ensures
            closed == self@.queue.closed,
    {
        self.scheduled.is_closed()
    }

    /// Whether the ready queue is closed and drained: the run loop has
    /// nothing to do, and nothing will ever arrive.
    pub fn is_disconnected(&self) -> (disconnected: bool)
        ensures
            disconnected == (self@.queue.front() == Err::<TaskHandle, RecvError>(
                RecvError::Disconnected,
            )),
    {
        self.scheduled.is_closed() && self.scheduled.is_empty()
    }
}

} // verus!
