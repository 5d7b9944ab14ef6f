use mini_executor::handle::TaskHandle;
use mini_executor::queue::{ReadyQueue, RecvError};
use mini_executor::waker::Waker;

fn handle(index: usize) -> TaskHandle {
    TaskHandle { index }
}

#[test]
fn a_new_queue_is_open_and_empty() {
    let mut queue = ReadyQueue::new();
    assert!(!queue.is_closed());
    assert!(queue.is_empty());
    assert_eq!(queue.len(), 0);
    assert_eq!(queue.try_recv(), Err(RecvError::Empty));
}

#[test]
fn the_queue_delivers_in_the_order_of_sending() {
    let mut queue = ReadyQueue::new();
    assert!(queue.send(handle(2)));
    assert!(queue.send(handle(0)));
    assert!(queue.send(handle(2)));
    assert_eq!(queue.len(), 3);
    assert_eq!(queue.try_recv(), Ok(handle(2)));
    assert_eq!(queue.try_recv(), Ok(handle(0)));
    assert_eq!(queue.try_recv(), Ok(handle(2)));
    assert_eq!(queue.try_recv(), Err(RecvError::Empty));
}

#[test]
fn a_closed_queue_is_drained_and_then_disconnected() {
    let mut queue = ReadyQueue::new();
    assert!(queue.send(handle(1)));
    queue.close();
    assert!(queue.is_closed());
    assert_eq!(queue.len(), 1);
    assert_eq!(queue.try_recv(), Ok(handle(1)));
    assert_eq!(queue.try_recv(), Err(RecvError::Disconnected));
    assert_eq!(queue.try_recv(), Err(RecvError::Disconnected));
}

#[test]
fn a_closed_queue_drops_what_is_sent() {
    let mut queue = ReadyQueue::new();
    queue.close();
    assert!(!queue.send(handle(1)));
    assert!(queue.is_empty());
    assert_eq!(queue.try_recv(), Err(RecvError::Disconnected));
}

#[test]
fn waking_sends_the_bound_task() {
    let mut queue = ReadyQueue::new();
    let waker = Waker::new(handle(7));
    assert_eq!(waker.task(), handle(7));
    waker.wake_by_ref(&mut queue);
    waker.wake_by_ref(&mut queue);
    let copy = waker.clone();
    assert_eq!(copy.task(), handle(7));
    copy.wake(&mut queue);
    waker.wake(&mut queue);
    assert_eq!(queue.len(), 4);
    for _ in 0..4 {
        assert_eq!(queue.try_recv(), Ok(handle(7)));
    }
    assert_eq!(queue.try_recv(), Err(RecvError::Empty));
}

#[test]
fn waking_on_a_closed_queue_is_dropped_silently() {
    let mut queue = ReadyQueue::new();
    queue.close();
    let waker = Waker::new(handle(7));
    waker.wake_by_ref(&mut queue);
    waker.wake(&mut queue);
    assert_eq!(queue.len(), 0);
}

fn sendable<T: Send + Sync + 'static>() {}

#[test]
fn capabilities_and_handles_may_cross_threads() {
    sendable::<Waker>();
    sendable::<TaskHandle>();
    sendable::<mini_executor::handle::Waiter>();
    sendable::<ReadyQueue>();
    sendable::<mini_executor::executor::Executor<mini_executor::delay::Delay>>();

    let waker = Waker::new(handle(1));
    let remote = waker.clone();
    let woken = std::sync::mpsc::channel();
    let sender: std::sync::mpsc::Sender<Waker> = woken.0;
    sender.send(remote).unwrap();
    let arrived = woken.1.recv().unwrap();
    let mut queue = ReadyQueue::new();
    arrived.wake(&mut queue);
    waker.wake(&mut queue);
    assert_eq!(queue.try_recv(), Ok(handle(1)));
    assert_eq!(queue.try_recv(), Ok(handle(1)));
}
