use mini_executor::computation::Computation;
use mini_executor::delay::Delay;
use mini_executor::handle::{Status, Step, TaskHandle, Waiter};
use mini_executor::queue::{ReadyQueue, RecvError};
use mini_executor::task::{Task, TaskFuture};
use mini_executor::waker::{Context, Waker};
use std::cell::Cell;
use std::rc::Rc;

/// Suspends `left` times, counting its polls, then completes with `value`.
struct Countdown {
    left: u32,
    value: u32,
    polls: Rc<Cell<u32>>,
}

impl Computation for Countdown {
    type Output = u32;

    fn poll(&mut self, cx: &mut Context) -> Step<u32> {
        self.polls.set(self.polls.get() + 1);
        if self.left == 0 {
            Step::Complete(self.value)
        } else {
            self.left -= 1;
            cx.sleep_until(cx.now() + 1);
            Step::Pending
        }
    }
}

struct Faulty;

impl Computation for Faulty {
    type Output = u32;

    fn poll(&mut self, _cx: &mut Context) -> Step<u32> {
        Step::Failed
    }
}

fn handle(index: usize) -> TaskHandle {
    TaskHandle { index }
}

#[test]
fn a_context_carries_the_waker_and_the_instant() {
    let cx = Context::from_waker(Waker::new(handle(3)), 42);
    assert_eq!(cx.now(), 42);
    assert_eq!(cx.waker().task(), handle(3));
    assert!(cx.into_armed().is_empty());
}

#[test]
fn a_context_collects_waiters_in_the_order_of_arming() {
    let mut cx = Context::from_waker(Waker::new(handle(3)), 42);
    cx.sleep_until(50);
    cx.sleep_until(45);
    assert_eq!(
        cx.into_armed(),
        vec![
            Waiter { deadline: 50, target: handle(3) },
            Waiter { deadline: 45, target: handle(3) },
        ]
    );
}

#[test]
fn a_delay_completes_at_its_deadline_and_not_before() {
    let mut delay = Delay::new(10);
    assert_eq!(delay.when, 10);

    let mut early = Context::from_waker(Waker::new(handle(0)), 9);
    assert_eq!(delay.poll(&mut early), Step::Pending);
    assert_eq!(early.into_armed(), vec![Waiter { deadline: 10, target: handle(0) }]);

    let mut on_time = Context::from_waker(Waker::new(handle(0)), 10);
    assert_eq!(delay.poll(&mut on_time), Step::Complete(()));
    assert!(on_time.into_armed().is_empty());

    let mut late = Context::from_waker(Waker::new(handle(0)), u64::MAX);
    assert_eq!(Delay::new(10).poll(&mut late), Step::Complete(()));
}

#[test]
fn a_delay_without_delay_is_ready_at_once() {
    let mut cx = Context::from_waker(Waker::new(handle(0)), 0);
    assert_eq!(Delay::new(0).poll(&mut cx), Step::Complete(()));
}

#[test]
fn a_task_future_polls_until_the_computation_ends() {
    let polls = Rc::new(Cell::new(0));
    let mut future = TaskFuture::new(Countdown { left: 2, value: 9, polls: polls.clone() });
    assert_eq!(future.status(), Status::Pending);

    let mut cx = Context::from_waker(Waker::new(handle(0)), 0);
    assert_eq!(future.poll(&mut cx), Some(Step::Pending));
    assert_eq!(future.status(), Status::Pending);
    assert_eq!(future.poll(&mut cx), Some(Step::Pending));
    assert_eq!(future.poll(&mut cx), Some(Step::Complete(9)));
    assert_eq!(future.status(), Status::Completed);
    assert_eq!(polls.get(), 3);
}

#[test]
fn a_task_future_is_never_polled_after_it_has_ended() {
    let polls = Rc::new(Cell::new(0));
    let mut future = TaskFuture::new(Countdown { left: 0, value: 9, polls: polls.clone() });
    let mut cx = Context::from_waker(Waker::new(handle(0)), 0);
    assert_eq!(future.poll(&mut cx), Some(Step::Complete(9)));
    assert_eq!(future.poll(&mut cx), None);
    assert_eq!(future.poll(&mut cx), None);
    assert_eq!(polls.get(), 1);
    assert_eq!(future.status(), Status::Completed);
}

#[test]
fn a_failed_computation_ends_its_task_future() {
    let mut future = TaskFuture::new(Faulty);
    let mut cx = Context::from_waker(Waker::new(handle(0)), 0);
    assert_eq!(future.poll(&mut cx), Some(Step::Failed));
    assert_eq!(future.status(), Status::Failed);
    assert_eq!(future.poll(&mut cx), None);
}

#[test]
fn a_cancelled_task_future_is_not_polled() {
    let polls = Rc::new(Cell::new(0));
    let mut future = TaskFuture::new(Countdown { left: 0, value: 9, polls: polls.clone() });
    assert!(future.cancel());
    assert_eq!(future.status(), Status::Cancelled);
    assert!(!future.cancel());
    let mut cx = Context::from_waker(Waker::new(handle(0)), 0);
    assert_eq!(future.poll(&mut cx), None);
    assert_eq!(polls.get(), 0);
}

#[test]
fn cancelling_an_ended_task_future_changes_nothing() {
    let mut future = TaskFuture::new(Faulty);
    let mut cx = Context::from_waker(Waker::new(handle(0)), 0);
    assert_eq!(future.poll(&mut cx), Some(Step::Failed));
    assert!(!future.cancel());
    assert_eq!(future.status(), Status::Failed);
}

#[test]
fn spawning_a_task_sends_it_to_the_queue() {
    let mut queue = ReadyQueue::new();
    let polls = Rc::new(Cell::new(0));
    let task = Task::spawn(handle(4), Countdown { left: 1, value: 1, polls: polls.clone() }, &mut queue);
    assert_eq!(task.id(), handle(4));
    assert_eq!(task.status(), Status::Pending);
    assert_eq!(queue.try_recv(), Ok(handle(4)));
    assert_eq!(queue.try_recv(), Err(RecvError::Empty));
    assert_eq!(polls.get(), 0);

    task.schedule(&mut queue);
    task.schedule(&mut queue);
    assert_eq!(queue.len(), 2);
}

#[test]
fn polling_a_task_binds_the_waiters_to_it() {
    let mut queue = ReadyQueue::new();
    let polls = Rc::new(Cell::new(0));
    let mut task =
        Task::spawn(handle(4), Countdown { left: 1, value: 8, polls: polls.clone() }, &mut queue);

    let first = task.poll(20);
    assert_eq!(first.step, Some(Step::Pending));
    assert_eq!(first.armed, vec![Waiter { deadline: 21, target: handle(4) }]);
    assert_eq!(task.status(), Status::Pending);

    let second = task.poll(21);
    assert_eq!(second.step, Some(Step::Complete(8)));
    assert!(second.armed.is_empty());
    assert_eq!(task.status(), Status::Completed);

    let third = task.poll(22);
    assert_eq!(third.step, None);
    assert!(third.armed.is_empty());
    assert_eq!(polls.get(), 2);
}

#[test]
fn a_cancelled_task_keeps_its_identity() {
    let mut queue = ReadyQueue::new();
    let mut task = Task::spawn(handle(1), Delay::new(5), &mut queue);
    assert!(task.cancel());
    assert!(!task.cancel());
    assert_eq!(task.id(), handle(1));
    assert_eq!(task.status(), Status::Cancelled);
    assert_eq!(task.poll(10).step, None);
}
