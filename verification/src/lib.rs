//! A minimal single-threaded cooperative task executor, with machine-checked
//! contracts.
//!
//! Tasks are suspendable computations that are polled to completion by a run
//! loop.  A task that is not ready yields at the return of its poll and is
//! polled again only after its wake capability has been invoked.
//!
//! The executor never blocks and never reads a clock: the instant of each
//! poll is handed in, waiters are plain values, and whoever drives the
//! executor decides when to wait and for what.  That makes every operation a
//! function of the executor's state, which `model` writes down and
//! `guarantees` reasons about:
//!
//! - `computation`: the trait of what a task runs;
//! - `delay`: the timer, a computation that is ready at a deadline;
//! - `waker`: the wake capability and the context of a poll;
//! - `queue`: the first-in, first-out ready queue;
//! - `task`: the task with its completion guard;
//! - `executor`: the table of tasks and the run loop;
//! - `handle`: the plain values that the others exchange.
//!
//! Two small helpers stand beside the executor: `words` takes the first word
//! of a text, and `framing` decides how a loop that reads frames from a
//! stream goes on after a read.

pub mod computation;
pub mod delay;
pub mod executor;
pub mod framing;
pub mod guarantees;
pub mod handle;
pub mod model;
pub mod queue;
pub mod task;
pub mod waker;
pub mod words;
