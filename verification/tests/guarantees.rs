use mini_executor::computation::Computation;
use mini_executor::delay::Delay;
use mini_executor::executor::Executor;
use mini_executor::handle::{
    Completion, Outcome, Status, Step, TaskHandle, Turn, TurnEvent, Waiter,
};
use mini_executor::waker::{Context, Waker};
use std::cell::Cell;
use std::rc::Rc;

/// Suspends `left` times without arming anything, counting its polls, then
/// completes with `value`.
struct Counted {
    left: u32,
    value: u32,
    polls: Rc<Cell<u32>>,
}

impl Counted {
    fn new(left: u32, value: u32) -> (Counted, Rc<Cell<u32>>) {
        let polls = Rc::new(Cell::new(0));
        (Counted { left, value, polls: polls.clone() }, polls)
    }
}

impl Computation for Counted {
    type Output = u32;

    fn poll(&mut self, _cx: &mut Context) -> Step<u32> {
        self.polls.set(self.polls.get() + 1);
        if self.left == 0 {
            Step::Complete(self.value)
        } else {
            self.left -= 1;
            Step::Pending
        }
    }
}

fn handle(index: usize) -> TaskHandle {
    TaskHandle { index }
}

#[test]
fn tasks_that_are_ready_at_once_complete_in_one_pass() {
    let mut executor = Executor::new();
    let mut counters = Vec::new();
    for value in 0..5 {
        let (job, polls) = Counted::new(0, value);
        executor.spawn(job);
        counters.push(polls);
    }
    let report = executor.run(0);
    assert_eq!(report.len(), 5);
    for index in 0..5 {
        assert_eq!(report[index].event, TurnEvent::Completed);
        assert_eq!(executor.status(handle(index)), Some(Status::Completed));
        assert_eq!(counters[index].get(), 1);
    }
    assert_eq!(executor.completions().len(), 5);
    assert_eq!(executor.ready_len(), 0);
    assert!(executor.waiters().is_empty());
    assert!(executor.run(0).is_empty());
}

#[test]
fn a_run_over_no_task_ends_at_once() {
    let mut executor: Executor<Counted> = Executor::new();
    assert!(executor.run(0).is_empty());
    executor.shutdown();
    assert!(executor.run(0).is_empty());
    assert!(executor.is_disconnected());
}

#[test]
fn a_burst_completes_in_the_order_of_spawning() {
    let mut executor = Executor::new();
    let mut spawned = Vec::new();
    for value in [40, 10, 30, 20] {
        let (job, _) = Counted::new(0, value);
        spawned.push(executor.spawn(job));
    }
    let report = executor.run(0);
    assert_eq!(
        report,
        vec![
            Turn { task: spawned[0], event: TurnEvent::Completed },
            Turn { task: spawned[1], event: TurnEvent::Completed },
            Turn { task: spawned[2], event: TurnEvent::Completed },
            Turn { task: spawned[3], event: TurnEvent::Completed },
        ]
    );
    assert_eq!(
        executor.completions(),
        &vec![
            Completion { task: handle(0), outcome: Outcome::Finished(40) },
            Completion { task: handle(1), outcome: Outcome::Finished(10) },
            Completion { task: handle(2), outcome: Outcome::Finished(30) },
            Completion { task: handle(3), outcome: Outcome::Finished(20) },
        ]
    );
}

#[test]
fn a_second_burst_is_logged_behind_the_first() {
    let mut executor = Executor::new();
    let (first, _) = Counted::new(0, 1);
    executor.spawn(first);
    executor.run(0);
    let (second, _) = Counted::new(0, 2);
    let (third, _) = Counted::new(0, 3);
    executor.spawn(second);
    executor.spawn(third);
    executor.run(1);
    let order: Vec<usize> = executor.completions().iter().map(|c| c.task.index).collect();
    assert_eq!(order, vec![0, 1, 2]);
}

#[test]
fn a_timer_is_never_complete_before_its_deadline() {
    let mut executor = Executor::new();
    let timer = executor.spawn(Delay::new(100));
    assert_eq!(executor.run(0), vec![Turn { task: timer, event: TurnEvent::Suspended }]);
    assert_eq!(executor.waiters(), &vec![Waiter { deadline: 100, target: timer }]);

    for now in [1, 50, 99] {
        assert_eq!(executor.fire_due(now), 0);
        assert!(executor.run(now).is_empty());
        assert_eq!(executor.status(timer), Some(Status::Pending));
    }
    assert_eq!(executor.fire_due(100), 1);
    assert_eq!(executor.run(100), vec![Turn { task: timer, event: TurnEvent::Completed }]);
    assert_eq!(executor.status(timer), Some(Status::Completed));
    assert_eq!(
        executor.completions(),
        &vec![Completion { task: timer, outcome: Outcome::Finished(()) }]
    );
}

#[test]
fn a_timer_woken_early_suspends_again_with_one_more_waiter() {
    let mut executor = Executor::new();
    let timer = executor.spawn(Delay::new(100));
    executor.run(0);
    executor.wake(&Waker::new(timer));
    assert_eq!(executor.run(50), vec![Turn { task: timer, event: TurnEvent::Suspended }]);
    assert_eq!(
        executor.waiters(),
        &vec![
            Waiter { deadline: 100, target: timer },
            Waiter { deadline: 100, target: timer },
        ]
    );
    assert_eq!(executor.fire_due(100), 2);
    assert_eq!(
        executor.run(100),
        vec![
            Turn { task: timer, event: TurnEvent::Completed },
            Turn { task: timer, event: TurnEvent::Skipped },
        ]
    );
    assert_eq!(executor.completions().len(), 1);
}

#[test]
fn a_timer_first_polled_late_completes_at_once() {
    let mut executor = Executor::new();
    let timer = executor.spawn(Delay::new(100));
    assert_eq!(executor.run(250), vec![Turn { task: timer, event: TurnEvent::Completed }]);
    assert!(executor.waiters().is_empty());
}

#[test]
fn waking_a_completed_task_never_polls_it_again() {
    let mut executor = Executor::new();
    let (job, polls) = Counted::new(0, 7);
    let task = executor.spawn(job);
    executor.run(0);
    assert_eq!(polls.get(), 1);

    let waker = Waker::new(task);
    for _ in 0..3 {
        executor.wake(&waker);
    }
    assert_eq!(executor.ready_len(), 3);
    let report = executor.run(1);
    assert_eq!(report, vec![Turn { task, event: TurnEvent::Skipped }; 3]);
    assert_eq!(polls.get(), 1);
    assert_eq!(executor.status(task), Some(Status::Completed));
    assert_eq!(
        executor.completions(),
        &vec![Completion { task, outcome: Outcome::Finished(7) }]
    );
}

#[test]
fn spurious_wakes_cause_at_most_as_many_polls() {
    let mut executor = Executor::new();
    let (job, polls) = Counted::new(10, 7);
    let task = executor.spawn(job);
    executor.run(0);
    assert_eq!(polls.get(), 1);

    let waker = Waker::new(task);
    for _ in 0..4 {
        executor.wake(&waker);
    }
    let report = executor.run(1);
    assert_eq!(report, vec![Turn { task, event: TurnEvent::Suspended }; 4]);
    assert_eq!(polls.get(), 5);
    assert_eq!(executor.status(task), Some(Status::Pending));
    assert!(executor.completions().is_empty());
}

#[test]
fn a_task_woken_too_often_still_ends_exactly_once() {
    let mut executor = Executor::new();
    let (job, polls) = Counted::new(2, 7);
    let task = executor.spawn(job);
    let waker = Waker::new(task);
    for _ in 0..5 {
        executor.wake(&waker);
    }
    let report = executor.run(0);
    assert_eq!(
        report,
        vec![
            Turn { task, event: TurnEvent::Suspended },
            Turn { task, event: TurnEvent::Suspended },
            Turn { task, event: TurnEvent::Completed },
            Turn { task, event: TurnEvent::Skipped },
            Turn { task, event: TurnEvent::Skipped },
            Turn { task, event: TurnEvent::Skipped },
        ]
    );
    assert_eq!(polls.get(), 3);
    assert_eq!(
        executor.completions(),
        &vec![Completion { task, outcome: Outcome::Finished(7) }]
    );
}

#[test]
fn spurious_wakes_leave_the_other_turns_as_they_were() {
    let mut plain = Executor::new();
    let mut woken = Executor::new();
    for executor in [&mut plain, &mut woken] {
        let (first, _) = Counted::new(1, 1);
        let (second, _) = Counted::new(0, 2);
        executor.spawn(first);
        executor.spawn(second);
    }
    woken.wake(&Waker::new(handle(0)));
    woken.wake(&Waker::new(handle(0)));
    let plain_report = plain.run(0);
    let woken_report = woken.run(0);
    assert_eq!(plain_report.len(), 2);
    assert_eq!(woken_report.len(), 4);
    assert_eq!(&woken_report[..2], &plain_report[..]);
    assert_eq!(
        &woken_report[2..],
        &[
            Turn { task: handle(0), event: TurnEvent::Completed },
            Turn { task: handle(0), event: TurnEvent::Skipped },
        ]
    );
}

#[test]
fn dropping_a_task_with_an_outstanding_waiter_is_safe() {
    let mut executor = Executor::new();
    let timer = executor.spawn(Delay::new(100));
    let other = executor.spawn(Delay::new(100));
    executor.run(0);
    assert_eq!(executor.waiters().len(), 2);

    assert!(executor.cancel(timer));
    assert_eq!(executor.status(timer), Some(Status::Cancelled));
    assert_eq!(executor.waiters().len(), 2);

    assert_eq!(executor.fire_due(100), 2);
    assert!(executor.waiters().is_empty());
    assert_eq!(executor.ready_len(), 1);
    assert_eq!(executor.run(100), vec![Turn { task: other, event: TurnEvent::Completed }]);
    assert_eq!(executor.status(timer), Some(Status::Cancelled));
    assert_eq!(
        executor.completions(),
        &vec![Completion { task: other, outcome: Outcome::Finished(()) }]
    );
}

#[test]
fn a_hosted_waiter_for_a_dropped_task_does_nothing() {
    let mut executor = Executor::new();
    let timer = executor.spawn(Delay::new(100));
    executor.run(0);
    let hosted = executor.take_waiters();
    assert!(executor.cancel(timer));
    for waiter in hosted {
        assert!(!executor.fire(waiter, 100));
    }
    assert_eq!(executor.ready_len(), 0);
    assert!(executor.run(100).is_empty());
    assert_eq!(executor.status(timer), Some(Status::Cancelled));
}

#[test]
fn a_stale_wake_of_a_dropped_task_is_skipped() {
    let mut executor = Executor::new();
    let (job, polls) = Counted::new(3, 1);
    let task = executor.spawn(job);
    executor.run(0);
    assert!(executor.cancel(task));
    executor.wake(&Waker::new(task));
    assert_eq!(executor.run(1), vec![Turn { task, event: TurnEvent::Skipped }]);
    assert_eq!(polls.get(), 1);
    assert!(executor.completions().is_empty());
}

#[test]
fn a_burst_behind_older_entries_completes_after_them_in_order() {
    let mut executor = Executor::new();
    let (slow, _) = Counted::new(1, 9);
    let old = executor.spawn(slow);
    executor.wake(&Waker::new(old));

    let mut counters = Vec::new();
    for value in [5, 6, 7] {
        let (job, polls) = Counted::new(0, value);
        executor.spawn(job);
        counters.push(polls);
    }
    let report = executor.run(0);
    assert_eq!(
        report,
        vec![
            Turn { task: handle(0), event: TurnEvent::Suspended },
            Turn { task: handle(0), event: TurnEvent::Completed },
            Turn { task: handle(1), event: TurnEvent::Completed },
            Turn { task: handle(2), event: TurnEvent::Completed },
            Turn { task: handle(3), event: TurnEvent::Completed },
        ]
    );
    assert_eq!(
        executor.completions(),
        &vec![
            Completion { task: handle(0), outcome: Outcome::Finished(9) },
            Completion { task: handle(1), outcome: Outcome::Finished(5) },
            Completion { task: handle(2), outcome: Outcome::Finished(6) },
            Completion { task: handle(3), outcome: Outcome::Finished(7) },
        ]
    );
    for polls in counters {
        assert_eq!(polls.get(), 1);
    }
}

#[test]
fn a_wake_for_a_handle_not_yet_given_out_is_served_in_its_place() {
    let mut executor = Executor::new();
    executor.wake(&Waker::new(handle(1)));
    let (first, first_polls) = Counted::new(0, 1);
    let (second, second_polls) = Counted::new(0, 2);
    executor.spawn(first);
    executor.spawn(second);
    assert_eq!(
        executor.run(0),
        vec![
            Turn { task: handle(1), event: TurnEvent::Completed },
            Turn { task: handle(0), event: TurnEvent::Completed },
            Turn { task: handle(1), event: TurnEvent::Skipped },
        ]
    );
    assert_eq!(first_polls.get(), 1);
    assert_eq!(second_polls.get(), 1);
    assert_eq!(executor.status(handle(0)), Some(Status::Completed));
    assert_eq!(executor.status(handle(1)), Some(Status::Completed));
}

#[test]
fn a_burst_spawned_after_shutdown_is_never_polled() {
    let mut executor = Executor::new();
    executor.shutdown();
    let (job, polls) = Counted::new(0, 1);
    let task = executor.spawn(job);
    assert!(executor.run(0).is_empty());
    assert_eq!(polls.get(), 0);
    assert_eq!(executor.status(task), Some(Status::Pending));
}
