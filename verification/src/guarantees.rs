//! What the executor guarantees to its users, proved over the model.

use vstd::prelude::*;
use crate::computation::Computation;
use crate::delay::Delay;
use crate::handle::{Status, Step, TaskHandle, Turn, TurnEvent, Waiter};
use crate::model::{
    lemma_cancelled_wf, lemma_run_is_fifo, lemma_spawned_wf, lemma_turn_wf, lemma_turns_queue,
    lemma_wf_frame, still_waiting, ExecutorView,
};
use crate::queue::RecvError;
use crate::task::TaskView;
use crate::waker::ContextView;

verus! {

/// How many turns of `report` polled the computation of the task `handle`.
pub open spec fn polls_of(report: Seq<Turn>, handle: TaskHandle) -> nat
    decreases report.len(),
{
    if report.len() == 0 {
        0
    } else {
        let last = report.last();
        let before = polls_of(report.drop_last(), handle);
        if last.task == handle && last.event.is_poll() {
            before + 1
        } else {
            before
        }
    }
}

/// A task that was never polled by `report` has no poll counted.
pub proof fn lemma_no_poll_counts_zero(report: Seq<Turn>, handle: TaskHandle)
    requires
        forall|i: int|
            0 <= i < report.len() && (#[trigger] report[i]).task == handle ==> report[i].event
                is Skipped,
    ensures
        polls_of(report, handle) == 0,
    decreases report.len(),
{
    if report.len() > 0 {
        let before = report.drop_last();
        assert forall|i: int| 0 <= i < before.len() && (#[trigger] before[i]).task == handle implies
            before[i].event is Skipped by {
            assert(before[i] == report[i]);
        }
        lemma_no_poll_counts_zero(before, handle);
        assert(report.last() == report[report.len() - 1]);
    }
}

/// Any number of turns keeps the executor consistent.
pub proof fn lemma_turns_wf<C: Computation>(s: ExecutorView<C>, count: nat, now: u64)
    requires
        s.wf(),
    ensures
        s.turns(count, now).wf(),
    decreases count,
{
    if count > 0 {
        lemma_turns_wf(s, (count - 1) as nat, now);
        lemma_turn_wf(s.turns((count - 1) as nat, now), now);
    }
}

/// Waking a task any number of times touches neither the tasks nor the
/// completion log nor the waiters.
pub proof fn lemma_woken_times_frame<C: Computation>(
    s: ExecutorView<C>,
    handle: TaskHandle,
    count: nat,
)
    ensures
        s.woken_times(handle, count).tasks == s.tasks,
        s.woken_times(handle, count).finished == s.finished,
        s.woken_times(handle, count).waiters == s.waiters,
        s.woken_times(handle, count).queue.closed == s.queue.closed,
    decreases count,
{
    if count > 0 {
        lemma_woken_times_frame(s, handle, (count - 1) as nat);
    }
}

/// A turn of the run loop leaves a terminal task alone: if the turn serves an
/// entry for it, the entry is skipped without a poll.
pub proof fn lemma_turn_keeps_terminal<C: Computation>(
    s: ExecutorView<C>,
    handle: TaskHandle,
    now: u64,
)
    requires
        s.knows(handle),
        s.tasks[handle.index as int].status.is_terminal(),
    ensures
        s.turn(now).tasks.len() == s.tasks.len(),
        s.turn(now).tasks[handle.index as int] == s.tasks[handle.index as int],
        s.turn_record(now) matches Ok(turn) ==> (turn.task == handle ==> turn.event is Skipped),
{
}

/// Turns of the run loop leave a terminal task alone, however many entries
/// for it the queue holds.
pub proof fn lemma_turns_keep_terminal<C: Computation>(
    s: ExecutorView<C>,
    handle: TaskHandle,
    count: nat,
    now: u64,
)
    requires
        s.knows(handle),
        s.tasks[handle.index as int].status.is_terminal(),
    ensures
        s.turns(count, now).tasks.len() == s.tasks.len(),
        s.turns(count, now).tasks[handle.index as int] == s.tasks[handle.index as int],
        forall|i: int|
            0 <= i < s.report(count, now).len() && (#[trigger] s.report(count, now)[i]).task
                == handle ==> s.report(count, now)[i].event is Skipped,
    decreases count,
{
    if count > 0 {
        let before = s.turns((count - 1) as nat, now);
        lemma_turns_keep_terminal(s, handle, (count - 1) as nat, now);
        lemma_turn_keeps_terminal(before, handle, now);
    }
}

/// Completion is final.  Once a task has ended, invoking its wake capability
/// any number of times and running the loop never polls its computation
/// again: every entry for it is skipped, the task stays as it is, and the
/// executor stays consistent.
pub proof fn lemma_completion_is_final<C: Computation>(
    s: ExecutorView<C>,
    handle: TaskHandle,
    wakes: nat,
    now: u64,
)
    requires
        s.wf(),
        s.knows(handle),
        s.tasks[handle.index as int].status.is_terminal(),
    ensures
        ({
            let woken = s.woken_times(handle, wakes);
            let after = woken.ran(now);
            let report = woken.run_report(now);
            &&& after.wf()
            &&& after.status_of(handle) == s.status_of(handle)
            &&& after.tasks[handle.index as int] == s.tasks[handle.index as int]
            &&& polls_of(report, handle) == 0
            &&& forall|i: int|
                0 <= i < report.len() && (#[trigger] report[i]).task == handle ==> report[i].event
                    is Skipped
        }),
{
    let woken = s.woken_times(handle, wakes);
    lemma_woken_times_frame(s, handle, wakes);
    lemma_wf_frame(s, woken);
    lemma_turns_wf(woken, woken.queue.entries.len(), now);
    lemma_turns_keep_terminal(woken, handle, woken.queue.entries.len(), now);
    lemma_no_poll_counts_zero(woken.run_report(now), handle);
}

/// No waiter that is due stays outstanding when the due waiters fire.
pub proof fn lemma_still_waiting_not_due(waiters: Seq<Waiter>, now: u64)
    ensures
        forall|i: int|
            0 <= i < still_waiting(waiters, now).len() ==> (#[trigger] still_waiting(
                waiters,
                now,
            )[i]).deadline > now,
    decreases waiters.len(),
{
    if waiters.len() > 0 {
        lemma_still_waiting_not_due(waiters.drop_last(), now);
        let before = still_waiting(waiters.drop_last(), now);
        let all = still_waiting(waiters, now);
        assert forall|i: int| 0 <= i < all.len() implies (#[trigger] all[i]).deadline > now by {
            if i < before.len() {
                assert(all[i] == before[i]);
            }
        }
    }
}

/// Firing waiters wakes live tasks only.
pub proof fn lemma_woken_by_live<C: Computation>(
    s: ExecutorView<C>,
    waiters: Seq<Waiter>,
    now: u64,
)
    ensures
        forall|i: int|
            0 <= i < s.woken_by(waiters, now).len() ==> s.is_live(
                #[trigger] s.woken_by(waiters, now)[i],
            ),
    decreases waiters.len(),
{
    if waiters.len() > 0 {
        lemma_woken_by_live(s, waiters.drop_last(), now);
        let before = s.woken_by(waiters.drop_last(), now);
        let all = s.woken_by(waiters, now);
        assert forall|i: int| 0 <= i < all.len() implies s.is_live(#[trigger] all[i]) by {
            if i < before.len() {
                assert(all[i] == before[i]);
            }
        }
    }
}

/// Dropping a task is safe while waiters for it are outstanding.  When the
/// deadline has passed and the waiters fire, the executor stays consistent,
/// none of them wakes the dropped task, no waiter that was due stays behind,
/// and a later run of the loop leaves the task as it was dropped.  A waiter
/// for the dropped task that is hosted elsewhere does nothing when it is
/// fired.
pub proof fn lemma_cancellation_is_safe<C: Computation>(
    s: ExecutorView<C>,
    handle: TaskHandle,
    waiter: Waiter,
    now: u64,
)
    requires
        s.wf(),
        s.knows(handle),
        waiter.target == handle,
    ensures
        ({
            let dropped = s.cancelled(handle);
            let fired = dropped.fired(now);
            let woken = dropped.woken_by(dropped.waiters, now);
            &&& dropped.wf()
            &&& fired.wf()
            &&& dropped.fired_one(waiter, now) == dropped
            &&& forall|i: int| 0 <= i < woken.len() ==> #[trigger] woken[i] != handle
            &&& forall|i: int| 0 <= i < fired.waiters.len() ==> (#[trigger] fired.waiters[i]).deadline > now
            &&& fired.ran(now).wf()
            &&& fired.ran(now).tasks[handle.index as int] == dropped.tasks[handle.index as int]
            &&& polls_of(fired.run_report(now), handle) == 0
        }),
{
    let dropped = s.cancelled(handle);
    let fired = dropped.fired(now);
    lemma_cancelled_wf(s, handle);
    lemma_wf_frame(dropped, fired);
    lemma_woken_by_live(dropped, dropped.waiters, now);
    lemma_still_waiting_not_due(dropped.waiters, now);
    assert(s.tasks[handle.index as int].wf());
    assert(dropped.tasks[handle.index as int].status.is_terminal());
    lemma_turns_wf(fired, fired.queue.entries.len(), now);
    lemma_turns_keep_terminal(fired, handle, fired.queue.entries.len(), now);
    lemma_no_poll_counts_zero(fired.run_report(now), handle);
}

/// A timer respects its deadline.  A turn that polls a live timer task
/// completes it if the deadline has been reached, and otherwise suspends it
/// with exactly one new waiter, armed for the deadline and bound to the task.
pub proof fn lemma_deadline_respected(s: ExecutorView<Delay>, now: u64)
    requires
        s.wf(),
        s.queue.entries.len() > 0,
        s.is_live(s.queue.entries[0]),
    ensures
        ({
            let handle = s.queue.entries[0];
            let delay = s.tasks[handle.index as int].computation->0;
            let after = s.turn(now);
            &&& now >= delay.when ==> {
                &&& s.turn_record(now) == Ok::<Turn, RecvError>(
                    Turn { task: handle, event: TurnEvent::Completed },
                )
                &&& after.status_of(handle) == Some(Status::Completed)
                &&& after.waiters == s.waiters
            }
            &&& now < delay.when ==> {
                &&& s.turn_record(now) == Ok::<Turn, RecvError>(
                    Turn { task: handle, event: TurnEvent::Suspended },
                )
                &&& after.status_of(handle) == Some(Status::Pending)
                &&& after.waiters == s.waiters.push(Waiter { deadline: delay.when, target: handle })
                &&& after.finished == s.finished
            }
        }),
{
    let handle = s.queue.entries[0];
    let at = handle.index as int;
    let cx = ContextView::fresh(handle, now);
    let task = s.tasks[at];
    let delay = task.computation->0;
    let after = s.turn(now);
    assert(task.wf());
    assert(after == s.received().polled(handle, now));
    if now >= delay.when {
        assert(task.poll_context(cx).armed =~= Seq::empty());
        assert(after.waiters =~= s.waiters);
    } else {
        assert(cx.waiters_for(seq![delay.when]) =~= seq![
            Waiter { deadline: delay.when, target: handle },
        ]);
        assert(after.waiters =~= s.waiters.push(Waiter { deadline: delay.when, target: handle }));
    }
}

/// A computation that completes on its first poll, whatever the context.
pub open spec fn always_ready<C: Computation>(computation: C) -> bool {
    forall|cx: ContextView| (#[trigger] computation.outcome(cx)) is Complete
}

/// The handle of the `i`-th task of a burst spawned on the state `s`.
pub open spec fn burst_handle<C: Computation>(s: ExecutorView<C>, i: int) -> TaskHandle {
    TaskHandle { index: (s.tasks.len() + i) as usize }
}

/// The state `cur` and the report `report` are what `served` turns at `now`
/// make of a burst of computations that are ready at once, spawned on `s`:
/// the first `served` tasks of the burst have completed, in the order of
/// their spawning, and the others wait in the queue, in that order too.
pub open spec fn burst_served<C: Computation>(
    s: ExecutorView<C>,
    burst: Seq<C>,
    now: u64,
    served: int,
    cur: ExecutorView<C>,
    report: Seq<Turn>,
) -> bool {
    let base = s.tasks.len() as int;
    let logged = s.finished.len() as int;
    &&& cur.tasks.len() == base + burst.len()
    &&& forall|t: int|
        base <= t < base + served ==> (#[trigger] cur.tasks[t]).status is Completed
    &&& forall|t: int|
        base + served <= t < base + burst.len() ==> #[trigger] cur.tasks[t] == TaskView::fresh(
            burst[t - base],
        )
    &&& cur.queue.entries.len() == burst.len() - served
    &&& forall|q: int|
        0 <= q < burst.len() - served ==> (#[trigger] cur.queue.entries[q]).index == base + served
            + q
    &&& cur.finished.len() == logged + served
    &&& forall|j: int| 0 <= j < logged ==> #[trigger] cur.finished[j] == s.finished[j]
    &&& forall|j: int|
        logged <= j < logged + served ==> {
            &&& (#[trigger] cur.finished[j]).task == burst_handle(s, j - logged)
            &&& Step::Complete(cur.finished[j].outcome->Finished_0) == burst[j - logged].outcome(
                ContextView::fresh(burst_handle(s, j - logged), now),
            )
            &&& cur.finished[j].outcome is Finished
        }
    &&& report.len() == served
    &&& forall|i: int|
        0 <= i < served ==> #[trigger] report[i] == (Turn {
            task: burst_handle(s, i),
            event: TurnEvent::Completed,
        })
}

/// The tasks of a burst as they are admitted.
pub open spec fn burst_tasks<C: Computation>(burst: Seq<C>) -> Seq<TaskView<C>> {
    Seq::new(burst.len(), |i: int| TaskView::fresh(burst[i]))
}

/// The handles of a burst of `count` tasks spawned on the state `s`, in the
/// order of the spawning.
pub open spec fn burst_handles<C: Computation>(s: ExecutorView<C>, count: nat) -> Seq<TaskHandle> {
    Seq::new(count, |i: int| burst_handle(s, i))
}

/// Spawning a burst on an open executor admits its tasks under consecutive
/// handles and queues them behind what is queued, in the order of the
/// spawning.
pub proof fn lemma_burst_spawned<C: Computation>(s: ExecutorView<C>, burst: Seq<C>)
    requires
        s.wf(),
        !s.queue.closed,
        s.tasks.len() + burst.len() <= usize::MAX,
    ensures
        s.spawned_all(burst).wf(),
        s.spawned_all(burst) == s.admitted_more(burst_tasks(burst)).queued_more(
            burst_handles(s, burst.len()),
        ),
    decreases burst.len(),
{
    if burst.len() > 0 {
        let shorter = burst.drop_last();
        lemma_burst_spawned(s, shorter);
        let before = s.spawned_all(shorter);
        let after = s.spawned_all(burst);
        lemma_spawned_wf(before, burst.last());
        assert(before.next_handle() == burst_handle(s, shorter.len() as int));
        assert(after.tasks =~= s.tasks + burst_tasks(burst));
        assert(after.queue.entries =~= s.queue.entries + burst_handles(s, burst.len()));
    } else {
        assert(s.tasks + burst_tasks(burst) =~= s.tasks);
        assert(s.queue.entries + burst_handles(s, 0) =~= s.queue.entries);
    }
}

/// One more turn serves the next task of a burst.
pub proof fn lemma_burst_turn<C: Computation>(
    s: ExecutorView<C>,
    burst: Seq<C>,
    now: u64,
    served: int,
    cur: ExecutorView<C>,
    report: Seq<Turn>,
)
    requires
        s.tasks.len() + burst.len() <= usize::MAX,
        forall|i: int| 0 <= i < burst.len() ==> always_ready(#[trigger] burst[i]),
        0 <= served < burst.len(),
        burst_served(s, burst, now, served, cur, report),
    ensures
        cur.turn_record(now) is Ok,
        burst_served(
            s,
            burst,
            now,
            served + 1,
            cur.turn(now),
            report.push(cur.turn_record(now)->Ok_0),
        ),
{
    let base = s.tasks.len() as int;
    let logged = s.finished.len() as int;
    let handle = cur.queue.entries[0];
    let cx = ContextView::fresh(handle, now);
    let next = cur.turn(now);
    let grown = report.push(cur.turn_record(now)->Ok_0);
    assert(handle.index == base + served);
    assert(handle == burst_handle(s, served));
    let task = cur.tasks[base + served];
    assert(task == TaskView::fresh(burst[served]));
    assert(always_ready(burst[served]));
    assert(burst[served].outcome(cx) is Complete);
    assert(next == cur.received().polled(handle, now));
    assert(next.tasks[base + served].status is Completed);
    assert forall|t: int| base <= t < base + served + 1 implies (#[trigger] next.tasks[t]).status
        is Completed by {
        if t < base + served {
            assert(next.tasks[t] == cur.tasks[t]);
        }
    }
    assert forall|t: int| base + served + 1 <= t < base + burst.len() implies
        #[trigger] next.tasks[t] == TaskView::fresh(burst[t - base]) by {
        assert(next.tasks[t] == cur.tasks[t]);
    }
    assert forall|q: int| 0 <= q < burst.len() - served - 1 implies (
    #[trigger] next.queue.entries[q]).index == base + served + 1 + q by {
        assert(next.queue.entries[q] == cur.queue.entries[q + 1]);
    }
    assert forall|j: int| 0 <= j < logged implies #[trigger] next.finished[j] == s.finished[j] by {
        assert(next.finished[j] == cur.finished[j]);
    }
    assert forall|j: int| logged <= j < logged + served + 1 implies {
        &&& (#[trigger] next.finished[j]).task == burst_handle(s, j - logged)
        &&& Step::Complete(next.finished[j].outcome->Finished_0) == burst[j - logged].outcome(
            ContextView::fresh(burst_handle(s, j - logged), now),
        )
        &&& next.finished[j].outcome is Finished
    } by {
        if j < logged + served {
            assert(next.finished[j] == cur.finished[j]);
        }
    }
    assert forall|i: int| 0 <= i < served + 1 implies #[trigger] grown[i] == (Turn {
        task: burst_handle(s, i),
        event: TurnEvent::Completed,
    }) by {
        if i < served {
            assert(grown[i] == report[i]);
        }
    }
}

/// The turns of a run serve a burst task by task.
pub proof fn lemma_burst_turns<C: Computation>(
    s: ExecutorView<C>,
    burst: Seq<C>,
    now: u64,
    served: nat,
)
    requires
        s.wf(),
        !s.queue.closed,
        s.queue.entries.len() == 0,
        s.tasks.len() + burst.len() <= usize::MAX,
        forall|i: int| 0 <= i < burst.len() ==> always_ready(#[trigger] burst[i]),
        served <= burst.len(),
    ensures
        burst_served(
            s,
            burst,
            now,
            served as int,
            s.spawned_all(burst).turns(served, now),
            s.spawned_all(burst).report(served, now),
        ),
    decreases served,
{
    if served == 0 {
        lemma_burst_spawned(s, burst);
        let spawned = s.spawned_all(burst);
        assert(spawned.finished == s.finished);
        assert forall|t: int| s.tasks.len() <= t < s.tasks.len() + burst.len() implies
            #[trigger] spawned.tasks[t] == TaskView::fresh(burst[t - s.tasks.len()]) by {
            assert(spawned.tasks[t] == burst_tasks(burst)[t - s.tasks.len()]);
        }
        assert forall|q: int| 0 <= q < burst.len() implies (
        #[trigger] spawned.queue.entries[q]).index == s.tasks.len() + q by {
            assert(spawned.queue.entries[q] == burst_handles(s, burst.len())[q]);
        }
    } else {
        let before = (served - 1) as nat;
        lemma_burst_turns(s, burst, now, before);
        lemma_burst_turn(
            s,
            burst,
            now,
            before as int,
            s.spawned_all(burst).turns(before, now),
            s.spawned_all(burst).report(before, now),
        );
    }
}

/// Tasks that are ready at once complete in one pass.  When a burst of
/// computations that complete on their first poll is spawned on an open
/// executor, whatever its queue holds, the next run polls each of them
/// exactly once, leaves every one of them completed, and ends with the queue
/// drained.
pub proof fn lemma_immediate_completion<C: Computation>(
    s: ExecutorView<C>,
    burst: Seq<C>,
    now: u64,
)
    requires
        s.wf(),
        !s.queue.closed,
        s.tasks.len() + burst.len() <= usize::MAX,
        forall|i: int| 0 <= i < burst.len() ==> always_ready(#[trigger] burst[i]),
    ensures
        ({
            let after = s.spawned_all(burst).ran(now);
            let report = s.spawned_all(burst).run_report(now);
            &&& after.wf()
            &&& after.queue.entries.len() == 0
            &&& forall|i: int|
                0 <= i < burst.len() ==> {
                    &&& after.status_of(#[trigger] burst_handle(s, i)) == Some(Status::Completed)
                    &&& polls_of(report, burst_handle(s, i)) == 1
                }
        }),
{
    let spawned = s.spawned_all(burst);
    let after = spawned.ran(now);
    let report = spawned.run_report(now);
    lemma_burst_spawned(s, burst);
    lemma_turns_wf(spawned, spawned.queue.entries.len(), now);
    lemma_turns_drain(spawned, spawned.queue.entries.len(), now);
    assert forall|i: int| 0 <= i < burst.len() implies {
        &&& after.status_of(#[trigger] burst_handle(s, i)) == Some(Status::Completed)
        &&& polls_of(report, burst_handle(s, i)) == 1
    } by {
        let handle = burst_handle(s, i);
        assert(spawned.tasks[s.tasks.len() + i] == burst_tasks(burst)[i]);
        assert(spawned.queue.entries[s.queue.entries.len() + i] == burst_handles(
            s,
            burst.len(),
        )[i]);
        assert(always_ready(burst[i]));
        lemma_queued_ready_task_completes(spawned, handle, now);
    }
}

/// A turn that serves a task of the table does not look at the tasks behind
/// it.
pub proof fn lemma_turn_ignores_later_tasks<C: Computation>(
    s: ExecutorView<C>,
    extra: Seq<TaskView<C>>,
    now: u64,
)
    requires
        s.queue.entries.len() > 0,
        s.knows(s.queue.entries[0]),
    ensures
        s.admitted_more(extra).turn(now) == s.turn(now).admitted_more(extra),
        s.admitted_more(extra).turn_record(now) == s.turn_record(now),
{
    let more = s.admitted_more(extra);
    let at = s.queue.entries[0].index as int;
    assert(more.tasks[at] == s.tasks[at]);
    assert(more.turn(now).tasks =~= s.turn(now).tasks + extra);
}

/// The turns that serve what was queued before a burst are the same with
/// and without the burst, as long as every entry names a task of the table.
pub proof fn lemma_turns_ignore_a_later_burst<C: Computation>(
    s: ExecutorView<C>,
    tasks: Seq<TaskView<C>>,
    handles: Seq<TaskHandle>,
    count: nat,
    now: u64,
)
    requires
        count <= s.queue.entries.len(),
        forall|q: int| 0 <= q < s.queue.entries.len() ==> s.knows(#[trigger] s.queue.entries[q]),
    ensures
        s.admitted_more(tasks).queued_more(handles).turns(count, now) == s.turns(
            count,
            now,
        ).admitted_more(tasks).queued_more(handles),
        s.admitted_more(tasks).queued_more(handles).report(count, now) == s.report(count, now),
    decreases count,
{
    if count > 0 {
        let before = (count - 1) as nat;
        lemma_turns_ignore_a_later_burst(s, tasks, handles, before, now);
        lemma_turns_queue(s, before, now);
        lemma_turns_keep_len(s, before, now);
        let cur = s.turns(before, now);
        assert(cur.queue.entries[0] == s.queue.entries[before as int]);
        lemma_turn_ignores_later_tasks(cur, tasks, now);
        lemma_turn_ignores_later_entries(cur.admitted_more(tasks), handles, now);
        assert(cur.turn(now).admitted_more(tasks).queued_more(handles) == cur.admitted_more(
            tasks,
        ).turn(now).queued_more(handles));
    }
}

/// Turns add up.
pub proof fn lemma_turns_compose<C: Computation>(
    s: ExecutorView<C>,
    first: nat,
    then: nat,
    now: u64,
)
    ensures
        s.turns(first + then, now) == s.turns(first, now).turns(then, now),
        s.report(first + then, now) == s.report(first, now) + s.turns(first, now).report(
            then,
            now,
        ),
    decreases then,
{
    if then > 0 {
        let fewer = (then - 1) as nat;
        lemma_turns_compose(s, first, fewer, now);
        assert((first + then - 1) as nat == first + fewer);
        assert(s.report(first + then, now) =~= s.report(first, now) + s.turns(first, now).report(
            then,
            now,
        ));
    } else {
        assert(s.report(first, now) + s.turns(first, now).report(0, now) =~= s.report(first, now));
    }
}

/// A burst completes in the order of its spawning.  When a burst of
/// computations that complete on their first poll is spawned on an open
/// executor whose queue names tasks of its table only, the next run first
/// does what it would have done without the burst, and then completes the
/// tasks of the burst one by one, in the order in which they were spawned:
/// the turns of the run and the new entries of the completion log name them
/// in that order, each entry with the result that the computation gave.
pub proof fn lemma_burst_is_fifo<C: Computation>(s: ExecutorView<C>, burst: Seq<C>, now: u64)
    requires
        s.wf(),
        !s.queue.closed,
        s.tasks.len() + burst.len() <= usize::MAX,
        forall|q: int| 0 <= q < s.queue.entries.len() ==> s.knows(#[trigger] s.queue.entries[q]),
        forall|i: int| 0 <= i < burst.len() ==> always_ready(#[trigger] burst[i]),
    ensures
        ({
            let without = s.ran(now);
            let plain = s.run_report(now);
            let after = s.spawned_all(burst).ran(now);
            let report = s.spawned_all(burst).run_report(now);
            &&& report.len() == plain.len() + burst.len()
            &&& report.take(plain.len() as int) == plain
            &&& after.finished.len() == without.finished.len() + burst.len()
            &&& after.finished.take(without.finished.len() as int) == without.finished
            &&& forall|i: int|
                0 <= i < burst.len() ==> {
                    &&& (#[trigger] report[plain.len() + i]) == Turn {
                        task: burst_handle(s, i),
                        event: TurnEvent::Completed,
                    }
                    &&& after.finished[without.finished.len() + i].task == burst_handle(s, i)
                    &&& Step::Complete(
                        after.finished[without.finished.len() + i].outcome->Finished_0,
                    ) == burst[i].outcome(ContextView::fresh(burst_handle(s, i), now))
                    &&& after.finished[without.finished.len() + i].outcome is Finished
                }
        }),
{
    let queued = s.queue.entries.len();
    let count = burst.len();
    let spawned = s.spawned_all(burst);
    let tasks = burst_tasks(burst);
    let handles = burst_handles(s, count);
    let without = s.ran(now);
    let plain = s.run_report(now);
    let after = spawned.ran(now);
    let report = spawned.run_report(now);

    lemma_burst_spawned(s, burst);
    lemma_turns_ignore_a_later_burst(s, tasks, handles, queued, now);
    lemma_turns_wf(s, queued, now);
    lemma_turns_drain(s, queued, now);
    lemma_turns_keep_len(s, queued, now);
    lemma_run_is_fifo(s, queued, now);

    lemma_burst_spawned(without, burst);
    assert(burst_handles(without, count) =~= handles);
    let mid = without.spawned_all(burst);
    assert(spawned.turns(queued, now) == mid);
    assert(mid.queue.entries.len() == count);
    lemma_turns_compose(spawned, queued, count, now);
    assert(after == mid.turns(count, now));
    let rest = mid.report(count, now);
    assert(report == plain + rest);
    lemma_burst_turns(without, burst, now, count);
    assert(report.take(plain.len() as int) =~= plain);
    assert(after.finished.take(without.finished.len() as int) =~= without.finished);
    assert forall|i: int| 0 <= i < burst.len() implies {
        &&& (#[trigger] report[plain.len() + i]) == Turn {
            task: burst_handle(s, i),
            event: TurnEvent::Completed,
        }
        &&& after.finished[without.finished.len() + i].task == burst_handle(s, i)
        &&& Step::Complete(after.finished[without.finished.len() + i].outcome->Finished_0)
            == burst[i].outcome(ContextView::fresh(burst_handle(s, i), now))
        &&& after.finished[without.finished.len() + i].outcome is Finished
    } by {
        let j = without.finished.len() + i;
        assert(burst_handle(without, i) == burst_handle(s, i));
        assert(report[plain.len() + i] == rest[i]);
        assert(after.finished[j].task == burst_handle(without, j - without.finished.len()));
    }
}

/// Each turn takes one entry from the queue, and none closes or opens it.
pub proof fn lemma_turns_drain<C: Computation>(s: ExecutorView<C>, count: nat, now: u64)
    requires
        count <= s.queue.entries.len(),
    ensures
        s.turns(count, now).queue.entries.len() == s.queue.entries.len() - count,
        s.turns(count, now).queue.closed == s.queue.closed,
    decreases count,
{
    if count > 0 {
        lemma_turns_drain(s, (count - 1) as nat, now);
    }
}

/// A turn does not look past the front of the queue.
pub proof fn lemma_turn_ignores_later_entries<C: Computation>(
    s: ExecutorView<C>,
    extra: Seq<TaskHandle>,
    now: u64,
)
    requires
        s.queue.entries.len() > 0,
    ensures
        s.queued_more(extra).turn(now) == s.turn(now).queued_more(extra),
        s.queued_more(extra).turn_record(now) == s.turn_record(now),
{
    let more = s.queued_more(extra);
    let handle = s.queue.entries[0];
    assert(more.queue.entries[0] == handle);
    assert(more.received().queue.entries =~= s.received().queue.entries + extra);
    assert(more.received() == s.received().queued_more(extra));
    assert(more.turn(now) == s.turn(now).queued_more(extra));
}

/// The turns that serve the entries of a queue are the same whatever is
/// queued behind those entries.
pub proof fn lemma_turns_ignore_later_entries<C: Computation>(
    s: ExecutorView<C>,
    extra: Seq<TaskHandle>,
    count: nat,
    now: u64,
)
    requires
        count <= s.queue.entries.len(),
    ensures
        s.queued_more(extra).turns(count, now) == s.turns(count, now).queued_more(extra),
        s.queued_more(extra).report(count, now) == s.report(count, now),
    decreases count,
{
    if count > 0 {
        let before = (count - 1) as nat;
        lemma_turns_ignore_later_entries(s, extra, before, now);
        lemma_turns_drain(s, before, now);
        lemma_turn_ignores_later_entries(s.turns(before, now), extra, now);
    }
}

/// Each further turn adds at most one poll of a task to the report.
pub proof fn lemma_report_grows_slowly<C: Computation>(
    s: ExecutorView<C>,
    handle: TaskHandle,
    fewer: nat,
    more: nat,
    now: u64,
)
    requires
        fewer <= more,
    ensures
        polls_of(s.report(more, now), handle) <= polls_of(s.report(fewer, now), handle) + (more
            - fewer),
    decreases more,
{
    if fewer < more {
        let before = (more - 1) as nat;
        lemma_report_grows_slowly(s, handle, fewer, before, now);
        match s.turns(before, now).turn_record(now) {
            Ok(turn) => {
                assert(s.report(more, now).drop_last() =~= s.report(before, now));
            },
            Err(_) => {},
        }
    }
}

/// Invoking a wake capability `count` times puts `count` entries for its task
/// behind the entries of an open queue, and nothing into a closed one.
pub proof fn lemma_woken_times_queue<C: Computation>(
    s: ExecutorView<C>,
    handle: TaskHandle,
    count: nat,
)
    ensures
        s.woken_times(handle, count) == if s.queue.closed {
            s
        } else {
            s.queued_more(Seq::new(count, |i: int| handle))
        },
    decreases count,
{
    if count > 0 {
        lemma_woken_times_queue(s, handle, (count - 1) as nat);
        if !s.queue.closed {
            let fewer = Seq::new((count - 1) as nat, |i: int| handle);
            let all = Seq::new(count, |i: int| handle);
            assert((s.queue.entries + fewer).push(handle) =~= s.queue.entries + all);
        }
    } else {
        assert(s.queue.entries + Seq::new(0, |i: int| handle) =~= s.queue.entries);
    }
}

/// Spurious wakes are safe.  Invoking the wake capability of a pending task
/// `wakes` times before a run makes that run poll the task at most `wakes`
/// times more than it would have polled it otherwise.  The turns that the
/// run would have made otherwise are made first and are the same.  Every
/// state that the run passes through is consistent, and the completion log
/// never holds more than one entry for the task.
pub proof fn lemma_spurious_wakes_are_safe<C: Computation>(
    s: ExecutorView<C>,
    handle: TaskHandle,
    wakes: nat,
    now: u64,
)
    requires
        s.wf(),
        s.is_live(handle),
    ensures
        ({
            let woken = s.woken_times(handle, wakes);
            let report = woken.run_report(now);
            let plain = s.run_report(now);
            let after = woken.ran(now);
            &&& polls_of(report, handle) <= polls_of(plain, handle) + wakes
            &&& woken.report(s.queue.entries.len(), now) == plain
            &&& forall|count: nat| (#[trigger] woken.turns(count, now)).wf()
            &&& after.wf()
            &&& forall|j: int, k: int|
                0 <= j < k < after.finished.len() ==> !((#[trigger] after.finished[j]).task
                    == handle && (#[trigger] after.finished[k]).task == handle)
            &&& after.tasks[handle.index as int].status.is_settled() ==> after.has_record(
                handle.index as int,
            )
        }),
{
    let woken = s.woken_times(handle, wakes);
    let queued = s.queue.entries.len();
    lemma_woken_times_frame(s, handle, wakes);
    lemma_woken_times_queue(s, handle, wakes);
    lemma_wf_frame(s, woken);
    assert forall|count: nat| (#[trigger] woken.turns(count, now)).wf() by {
        lemma_turns_wf(woken, count, now);
    }
    let after = woken.ran(now);
    assert(after.wf());
    lemma_turns_keep_len(woken, woken.queue.entries.len(), now);
    if !s.queue.closed {
        let extra = Seq::new(wakes, |i: int| handle);
        lemma_turns_ignore_later_entries(s, extra, queued, now);
        lemma_report_grows_slowly(woken, handle, queued, queued + wakes, now);
    }
}

/// Turns neither admit nor forget tasks.
pub proof fn lemma_turns_keep_len<C: Computation>(s: ExecutorView<C>, count: nat, now: u64)
    ensures
        s.turns(count, now).tasks.len() == s.tasks.len(),
    decreases count,
{
    if count > 0 {
        lemma_turns_keep_len(s, (count - 1) as nat, now);
    }
}

/// A turn touches no task but the one it serves.
pub proof fn lemma_turn_is_local<C: Computation>(s: ExecutorView<C>, now: u64, other: int)
    requires
        0 <= other < s.tasks.len(),
        s.queue.entries.len() > 0 ==> s.queue.entries[0].index != other,
    ensures
        s.turn(now).tasks.len() == s.tasks.len(),
        s.turn(now).tasks[other] == s.tasks[other],
{
}

/// What `served` turns at `now` make of a live task `handle` that is queued
/// in `s` and whose computation completes when it is polled at `now`: either
/// the task has not been served yet and an entry for it is still queued, or
/// it was polled once and has completed.
pub open spec fn ready_task_served<C: Computation>(
    s: ExecutorView<C>,
    handle: TaskHandle,
    now: u64,
    served: nat,
) -> bool {
    let cur = s.turns(served, now);
    let polls = polls_of(s.report(served, now), handle);
    &&& cur.tasks.len() == s.tasks.len()
    &&& {
        ||| {
            &&& cur.tasks[handle.index as int] == s.tasks[handle.index as int]
            &&& polls == 0
            &&& exists|q: int|
                served <= q < s.queue.entries.len() && #[trigger] s.queue.entries[q] == handle
        }
        ||| {
            &&& cur.tasks[handle.index as int].status is Completed
            &&& polls == 1
        }
    }
}

/// The turns of a run come to a queued task that is ready, and complete it
/// with one poll.
pub proof fn lemma_ready_task_turns<C: Computation>(
    s: ExecutorView<C>,
    handle: TaskHandle,
    now: u64,
    served: nat,
)
    requires
        s.is_live(handle),
        s.tasks[handle.index as int].wf(),
        s.queue.entries.contains(handle),
        s.tasks[handle.index as int].computation->0.outcome(ContextView::fresh(handle, now))
            is Complete,
        served <= s.queue.entries.len(),
    ensures
        ready_task_served(s, handle, now, served),
    decreases served,
{
    if served == 0 {
        let q = choose|q: int| 0 <= q < s.queue.entries.len() && s.queue.entries[q] == handle;
        assert(s.queue.entries[q] == handle);
    } else {
        let before = (served - 1) as nat;
        lemma_ready_task_turns(s, handle, now, before);
        lemma_turns_queue(s, before, now);
        let cur = s.turns(before, now);
        let front = s.queue.entries[before as int];
        assert(cur.queue.entries[0] == front);
        let turn = cur.turn_record(now)->Ok_0;
        assert(s.report(served, now).drop_last() =~= s.report(before, now));
        assert(s.report(served, now).last() == turn);
        if cur.tasks[handle.index as int].status is Completed {
            lemma_turn_keeps_terminal(cur, handle, now);
        } else if front == handle {
            assert(cur.turn(now) == cur.received().polled(handle, now));
        } else {
            let q = choose|q: int|
                before <= q < s.queue.entries.len() && #[trigger] s.queue.entries[q] == handle;
            assert(served <= q < s.queue.entries.len() && s.queue.entries[q] == handle);
            lemma_turn_is_local(cur, now, handle.index as int);
        }
    }
}

/// A woken task that is ready completes in the next run.  If a live task is
/// queued and its computation completes when it is polled at `now`, the run
/// at `now` polls it exactly once and leaves it completed.
pub proof fn lemma_queued_ready_task_completes<C: Computation>(
    s: ExecutorView<C>,
    handle: TaskHandle,
    now: u64,
)
    requires
        s.wf(),
        s.is_live(handle),
        s.queue.entries.contains(handle),
        s.tasks[handle.index as int].computation->0.outcome(ContextView::fresh(handle, now))
            is Complete,
    ensures
        s.ran(now).status_of(handle) == Some(Status::Completed),
        polls_of(s.run_report(now), handle) == 1,
{
    lemma_ready_task_turns(s, handle, now, s.queue.entries.len());
}

/// A waiter that fires wakes its target.
pub proof fn lemma_firing_waiter_wakes<C: Computation>(
    s: ExecutorView<C>,
    waiters: Seq<Waiter>,
    at: int,
    now: u64,
)
    requires
        0 <= at < waiters.len(),
        s.fires(waiters[at], now),
    ensures
        s.woken_by(waiters, now).contains(waiters[at].target),
    decreases waiters.len(),
{
    let all = s.woken_by(waiters, now);
    if at == waiters.len() - 1 {
        assert(all.last() == waiters[at].target);
    } else {
        lemma_firing_waiter_wakes(s, waiters.drop_last(), at, now);
        let before = s.woken_by(waiters.drop_last(), now);
        let q = choose|q: int| 0 <= q < before.len() && before[q] == waiters[at].target;
        assert(all[q] == waiters[at].target);
    }
}

/// A timer completes as soon as the loop runs at or after its deadline.  If
/// a live timer task on an open executor has a waiter outstanding, then
/// firing the due waiters at an instant `now` at or after the timer's
/// deadline, and running the loop at `now`, completes the task with one
/// poll.
pub proof fn lemma_due_timer_completes(
    s: ExecutorView<Delay>,
    handle: TaskHandle,
    at: int,
    now: u64,
)
    requires
        s.wf(),
        !s.queue.closed,
        s.is_live(handle),
        0 <= at < s.waiters.len(),
        s.waiters[at].target == handle,
        s.waiters[at].deadline <= now,
        s.tasks[handle.index as int].computation->0.when <= now,
    ensures
        s.fired(now).ran(now).status_of(handle) == Some(Status::Completed),
        polls_of(s.fired(now).run_report(now), handle) == 1,
{
    let fired = s.fired(now);
    let woken = s.woken_by(s.waiters, now);
    lemma_wf_frame(s, fired);
    lemma_firing_waiter_wakes(s, s.waiters, at, now);
    let q = choose|q: int| 0 <= q < woken.len() && woken[q] == handle;
    assert(fired.queue.entries[s.queue.entries.len() + q] == handle);
    assert(s.tasks[handle.index as int].wf());
    lemma_queued_ready_task_completes(fired, handle, now);
}

} // verus!
